//! The battle director: a finite-state protocol that sequences the attack
//! animation, damage application, death handling, slot re-compaction,
//! outcome banners and roster restoration, advancing exactly one step per
//! tick of an externally supplied elapsed time.
//!
//! Units live in an arena (`Vec<Buddy>`); the phases capture stable indices
//! into it rather than references, so presence can be checked each tick.

use crate::animate::{ease_spec, timer_ticked, AnimateRange, Ease, Timer, FIX_ONE, RANGE_MAX};
use crate::buddy::{attr_damaged, attr_reset, lemma_attr_base_nonneg, Buddy, BuddyTemplate, Side, Slot, MAX_PER_SIDE, SLOT_SENTINEL, STAT_ROLL_MAX};
use crate::counters::{Coins, Trophies};
use crate::pad::PAD_SPACING;
use vstd::prelude::*;

verus! {

/// Bound on every stat the battle works with, far inside every machine
/// limit: attribute bases, current strength values and damage amounts.
pub const STAT_MAX: usize = 1000000000;

/// How far an attacking unit lunges, in `FIX_ONE` scale (40.0 units).
pub const ATTACK_OFFSET: u64 = 4000000;

/// Duration of the opening pause, in milliseconds.
pub const BEGIN_MS: u64 = 2000;

/// Duration of each half of the attack lunge, in milliseconds.
pub const ATTACK_MS: u64 = 300;

/// Duration of the post-death slide, in milliseconds.
pub const SHIFT_MS: u64 = 1000;

/// Duration of the banner's entrance, in milliseconds.
pub const MESSAGE_IN_MS: u64 = 1000;

/// Duration of the banner's exit, in milliseconds.
pub const MESSAGE_OUT_MS: u64 = 600;

/// Duration of the restore delay, in milliseconds.
pub const RESTORE_MS: u64 = 500;

/// Which outcome banner a result phase is showing.
#[derive(Copy, Clone, Debug, PartialEq, Eq, Structural)]
pub enum BannerId {
    YouWin,
    YouLose,
    YouTie,
}

/// One outcome banner's presentation state: visibility and scale in
/// `FIX_ONE` units.
#[derive(Copy, Clone, Debug, PartialEq, Eq, Structural)]
pub struct Banner {
    pub visible: bool,
    pub scale_x: i64,
    pub scale_y: i64,
}

impl Default for Banner {
    fn default() -> (b: Banner)
        ensures
            b == (Banner { visible: false, scale_x: 0, scale_y: 0 }),
    {
        Banner { visible: false, scale_x: 0, scale_y: 0 }
    }
}

/// The three outcome banners.
#[derive(Copy, Clone, Debug, PartialEq, Eq, Structural)]
pub struct BattleMessages {
    pub you_win: Banner,
    pub you_lose: Banner,
    pub you_tie: Banner,
}

impl Default for BattleMessages {
    fn default() -> (m: BattleMessages)
        ensures
            m.you_win == (Banner { visible: false, scale_x: 0, scale_y: 0 }),
            m.you_lose == (Banner { visible: false, scale_x: 0, scale_y: 0 }),
            m.you_tie == (Banner { visible: false, scale_x: 0, scale_y: 0 }),
    {
        BattleMessages {
            you_win: Banner::default(),
            you_lose: Banner::default(),
            you_tie: Banner::default(),
        }
    }
}

/// The phase the battle stands in, with whatever that phase carries:
/// captured arena indices, strength snapshots, death flags and the
/// interpolators that gate its transitions.
pub enum Action {
    Begin { timer: Timer },
    StartAttack,
    ExecuteAttack {
        left_buddy: usize,
        right_buddy: usize,
        left_strength: usize,
        right_strength: usize,
        left_died: bool,
        right_died: bool,
        animate_in: AnimateRange,
        animate_out: AnimateRange,
    },
    Shift {
        animate_shift: AnimateRange,
        left_buddy: usize,
        right_buddy: usize,
        left_died: bool,
        right_died: bool,
    },
    ShowMessage { message: BannerId, animate_in: AnimateRange, animate_out: AnimateRange },
    RestoreBuddies { animate: AnimateRange },
}

/// One battle session: exactly the current phase.
pub struct Battle {
    pub action: Action,
}

impl Default for Battle {
    fn default() -> (b: Battle)
        ensures
            b.action matches Action::Begin { timer } && timer.duration() == 0 && timer.elapsed()
                == 0 && !timer.is_repeating() && !timer.spec_just_finished(),
    {
        Battle { action: Action::Begin { timer: Timer::default() } }
    }
}

/// Unit `i` is the front combatant of `side`: it stands at slot 0.
pub open spec fn is_front(units: Seq<Buddy>, i: int, side: Side) -> bool {
    &&& 0 <= i < units.len()
    &&& units[i].side == side
    &&& units[i].slot.current == 0
}

/// Some unit stands at the front slot of `side`.
pub open spec fn has_front(units: Seq<Buddy>, side: Side) -> bool {
    exists|i: int| is_front(units, i, side)
}

/// How many alive units `side` has.
pub open spec fn count_alive(units: Seq<Buddy>, side: Side) -> int
    decreases units.len(),
{
    if units.len() == 0 {
        0
    } else {
        count_alive(units.drop_last(), side) + if units.last().alive && units.last().side == side {
            1int
        } else {
            0int
        }
    }
}

/// How many units `side` has, alive or not.
pub open spec fn count_side(units: Seq<Buddy>, side: Side) -> int
    decreases units.len(),
{
    if units.len() == 0 {
        0
    } else {
        count_side(units.drop_last(), side) + if units.last().side == side {
            1int
        } else {
            0int
        }
    }
}

/// `side` still has at least one alive unit.
pub open spec fn any_alive(units: Seq<Buddy>, side: Side) -> bool {
    exists|i: int| 0 <= i < units.len() && units[i].alive && units[i].side == side
}

/// Per-unit sanity: stats inside `STAT_MAX`, a dead unit parked at the
/// sentinel slot, and a base position inside the valid range.
pub open spec fn unit_wf(u: Buddy) -> bool {
    &&& 0 <= u.strength.0.spec_current() <= STAT_MAX
    &&& u.strength.0.spec_base() <= STAT_MAX
    &&& u.health.0.spec_base() <= STAT_MAX
    &&& -2 * (STAT_MAX as int) <= u.health.0.spec_current() <= STAT_MAX
    &&& !u.alive ==> u.slot.current == SLOT_SENTINEL
    &&& u.slot.base < MAX_PER_SIDE
}

/// The data-model invariant of one side's alive units: slot positions are
/// distinct and bounded by the alive count, which together make them
/// contiguous from 0.
pub open spec fn side_slots_wf(units: Seq<Buddy>, side: Side) -> bool {
    &&& forall|i: int, j: int|
        0 <= i < units.len() && 0 <= j < units.len() && i != j && units[i].alive
            && units[j].alive && units[i].side == side && units[j].side == side
            ==> #[trigger] units[i].slot.current != #[trigger] units[j].slot.current
    &&& forall|i: int|
        0 <= i < units.len() && units[i].alive && #[trigger] units[i].side == side
            ==> units[i].slot.current < count_alive(units, side)
}

/// The left roster's base positions are distinct and bounded by the left
/// roster's size, so that restoring every left unit to its base position
/// re-establishes the slot invariant.
pub open spec fn left_bases_wf(units: Seq<Buddy>) -> bool {
    &&& forall|i: int, j: int|
        0 <= i < units.len() && 0 <= j < units.len() && i != j && units[i].side == Side::Left
            && units[j].side == Side::Left
            ==> #[trigger] units[i].slot.base != #[trigger] units[j].slot.base
    &&& forall|i: int|
        0 <= i < units.len() && #[trigger] units[i].side == Side::Left
            ==> units[i].slot.base < count_side(units, Side::Left)
}

/// The arena invariant the battle director preserves.
pub open spec fn units_wf(units: Seq<Buddy>) -> bool {
    &&& forall|i: int| 0 <= i < units.len() ==> unit_wf(#[trigger] units[i])
    &&& side_slots_wf(units, Side::Left)
    &&& side_slots_wf(units, Side::Right)
    &&& left_bases_wf(units)
}

/// Every alive unit can display its health: its current health is not
/// negative. Mid-attack this is suspended for the two combatants.
pub open spec fn healths_displayable(units: Seq<Buddy>) -> bool {
    forall|i: int|
        0 <= i < units.len() && #[trigger] units[i].alive ==> units[i].health.0.spec_current()
            >= 0
}

/// As `healths_displayable`, except at the two captured combatants.
pub open spec fn healths_displayable_except(units: Seq<Buddy>, a: int, b: int) -> bool {
    forall|i: int|
        0 <= i < units.len() && #[trigger] units[i].alive && i != a && i != b
            ==> units[i].health.0.spec_current() >= 0
}

/// The captured combatant handles of an attack are the alive front units
/// of their sides.
pub open spec fn attack_handles_wf(units: Seq<Buddy>, lb: int, rb: int) -> bool {
    &&& is_front(units, lb, Side::Left) && units[lb].alive
    &&& is_front(units, rb, Side::Right) && units[rb].alive
}

/// What must hold of the current phase's payload against the arena for the
/// director to take its next step safely.
pub open spec fn action_wf(a: Action, units: Seq<Buddy>) -> bool {
    match a {
        Action::Begin { timer } => {
            &&& timer.inv()
            &&& !timer.is_repeating()
            &&& healths_displayable(units)
        },
        Action::StartAttack => healths_displayable(units),
        Action::ExecuteAttack {
            left_buddy,
            right_buddy,
            left_strength,
            right_strength,
            left_died,
            right_died,
            animate_in,
            animate_out,
        } => {
            let lb = left_buddy as int;
            let rb = right_buddy as int;
            &&& animate_in.inv() && !animate_in.timer().is_repeating()
            &&& animate_out.inv() && !animate_out.timer().is_repeating()
            &&& attack_handles_wf(units, lb, rb)
            &&& left_strength <= STAT_MAX && right_strength <= STAT_MAX
            &&& if !animate_in.timer().spec_finished() {
                &&& healths_displayable(units)
                &&& !left_died && !right_died
            } else {
                &&& healths_displayable_except(units, lb, rb)
                &&& (left_died <==> units[lb].health.0.spec_current() <= 0)
                &&& (right_died <==> units[rb].health.0.spec_current() <= 0)
            }
        },
        Action::Shift { animate_shift, left_buddy, right_buddy, left_died, right_died } => {
            let lb = left_buddy as int;
            let rb = right_buddy as int;
            &&& animate_shift.inv() && !animate_shift.timer().is_repeating()
            &&& healths_displayable_except(
                units,
                if left_died {
                    lb
                } else {
                    -1
                },
                if right_died {
                    rb
                } else {
                    -1
                },
            )
            &&& left_died ==> is_front(units, lb, Side::Left) && units[lb].alive
                && units[lb].health.0.spec_current() <= 0
            &&& right_died ==> is_front(units, rb, Side::Right) && units[rb].alive
                && units[rb].health.0.spec_current() <= 0
        },
        Action::ShowMessage { message, animate_in, animate_out } => {
            &&& animate_in.inv() && !animate_in.timer().is_repeating()
            &&& animate_out.inv() && !animate_out.timer().is_repeating()
            &&& healths_displayable(units)
        },
        Action::RestoreBuddies { animate } => {
            &&& animate.inv() && !animate.timer().is_repeating()
            &&& healths_displayable(units)
        },
    }
}

/// The full invariant of a running session.
pub open spec fn battle_wf(b: Battle, units: Seq<Buddy>) -> bool {
    units_wf(units) && action_wf(b.action, units)
}

/// The edges of the phase graph: which phase one tick may move to from
/// which. The restore phase has no outgoing edge but itself.
pub open spec fn phase_step(pre: Action, post: Action) -> bool {
    match pre {
        Action::Begin { .. } => post matches Action::Begin { .. } || post
            matches Action::StartAttack,
        Action::StartAttack => post matches Action::StartAttack || post
            matches Action::ExecuteAttack { .. },
        Action::ExecuteAttack { .. } => post matches Action::ExecuteAttack { .. } || post
            matches Action::Shift { .. },
        Action::Shift { .. } => post matches Action::Shift { .. } || post
            matches Action::StartAttack || post matches Action::ShowMessage { .. },
        Action::ShowMessage { .. } => post matches Action::ShowMessage { .. } || post
            matches Action::RestoreBuddies { .. },
        Action::RestoreBuddies { .. } => post matches Action::RestoreBuddies { .. },
    }
}

/// Two sequences agree at every index on liveness at `side`, so they have
/// the same alive count there.
pub proof fn lemma_count_alive_agree(s1: Seq<Buddy>, s2: Seq<Buddy>, side: Side)
    requires
        s1.len() == s2.len(),
        forall|i: int|
            #![trigger s1[i], s2[i]]
            0 <= i < s1.len() ==> ((s1[i].alive && s1[i].side == side) <==> (s2[i].alive
                && s2[i].side == side)),
    ensures
        count_alive(s1, side) == count_alive(s2, side),
    decreases s1.len(),
{
    if s1.len() > 0 {
        let t1 = s1.drop_last();
        let t2 = s2.drop_last();
        assert forall|i: int|
            #![trigger t1[i], t2[i]]
            0 <= i < t1.len() implies ((t1[i].alive && t1[i].side == side) <==> (t2[i].alive
            && t2[i].side == side)) by {
            assert(t1[i] == s1[i] && t2[i] == s2[i]);
        }
        lemma_count_alive_agree(t1, t2, side);
    }
}

/// Exactly one alive unit of `side` went down between `s1` and `s2`: the
/// alive count drops by one.
pub proof fn lemma_count_alive_kill_one(s1: Seq<Buddy>, s2: Seq<Buddy>, side: Side, d: int)
    requires
        s1.len() == s2.len(),
        0 <= d < s1.len(),
        s1[d].alive && s1[d].side == side,
        !s2[d].alive,
        forall|i: int|
            #![trigger s1[i], s2[i]]
            0 <= i < s1.len() && i != d ==> ((s1[i].alive && s1[i].side == side) <==> (s2[i].alive
                && s2[i].side == side)),
    ensures
        count_alive(s2, side) == count_alive(s1, side) - 1,
    decreases s1.len(),
{
    let t1 = s1.drop_last();
    let t2 = s2.drop_last();
    if d == s1.len() - 1 {
        assert forall|i: int|
            #![trigger t1[i], t2[i]]
            0 <= i < t1.len() implies ((t1[i].alive && t1[i].side == side) <==> (t2[i].alive
            && t2[i].side == side)) by {
            assert(t1[i] == s1[i] && t2[i] == s2[i]);
        }
        lemma_count_alive_agree(t1, t2, side);
    } else {
        assert forall|i: int|
            #![trigger t1[i], t2[i]]
            0 <= i < t1.len() && i != d implies ((t1[i].alive && t1[i].side == side) <==> (
        t2[i].alive && t2[i].side == side)) by {
            assert(t1[i] == s1[i] && t2[i] == s2[i]);
        }
        assert(t1[d] == s1[d] && t2[d] == s2[d]);
        lemma_count_alive_kill_one(t1, t2, side, d);
    }
}

/// The alive count never exceeds the side's size, and equals it when every
/// unit of the side is alive.
pub proof fn lemma_count_alive_le_side(units: Seq<Buddy>, side: Side)
    ensures
        count_alive(units, side) <= count_side(units, side),
        (forall|i: int|
            0 <= i < units.len() && #[trigger] units[i].side == side ==> units[i].alive)
            ==> count_alive(units, side) == count_side(units, side),
    decreases units.len(),
{
    if units.len() > 0 {
        lemma_count_alive_le_side(units.drop_last(), side);
    }
}

/// Two sequences agree at every index on membership of `side`, so the
/// side's size agrees too.
pub proof fn lemma_count_side_agree(s1: Seq<Buddy>, s2: Seq<Buddy>, side: Side)
    requires
        s1.len() == s2.len(),
        forall|i: int|
            #![trigger s1[i], s2[i]]
            0 <= i < s1.len() ==> ((s1[i].side == side) <==> (s2[i].side == side)),
    ensures
        count_side(s1, side) == count_side(s2, side),
    decreases s1.len(),
{
    if s1.len() > 0 {
        let t1 = s1.drop_last();
        let t2 = s2.drop_last();
        assert forall|i: int|
            #![trigger t1[i], t2[i]]
            0 <= i < t1.len() implies ((t1[i].side == side) <==> (t2[i].side == side)) by {
            assert(t1[i] == s1[i] && t2[i] == s2[i]);
        }
        lemma_count_side_agree(t1, t2, side);
    }
}

/// Scan the arena for the front combatant of `side` and capture its
/// strength value, as the attack-start phase does.
fn find_front(units: &Vec<Buddy>, side: Side) -> (r: Option<(usize, usize)>)
    ensures
        match r {
            Some(p) => is_front(units@, p.0 as int, side) && p.1 == units@[p.0 as int
            ].strength.0.spec_value(),
            None => !has_front(units@, side),
        },
{
    let mut found: Option<(usize, usize)> = None;
    let n = units.len();
    let mut i: usize = 0;
    while i < n
        invariant
            n == units@.len(),
            i <= n,
            match found {
                Some(p) => is_front(units@, p.0 as int, side) && p.1 == units@[p.0 as int
                ].strength.0.spec_value(),
                None => forall|j: int| 0 <= j < i ==> !is_front(units@, j, side),
            },
        decreases n - i,
    {
        if units[i].side == side && units[i].slot.current == 0 {
            let s = units[i].strength.0.value();
            found = Some((i, s));
        }
        i = i + 1;
    }
    proof {
        if found is None && has_front(units@, side) {
            let w = choose|j: int| is_front(units@, j, side);
            assert(!is_front(units@, w, side));
        }
    }
    found
}

/// Whether `side` still has an alive unit in the arena.
fn side_has_alive(units: &Vec<Buddy>, side: Side) -> (r: bool)
    ensures
        r == any_alive(units@, side),
{
    let n = units.len();
    let mut i: usize = 0;
    let mut found: bool = false;
    while i < n
        invariant
            n == units@.len(),
            i <= n,
            found ==> any_alive(units@, side),
            !found ==> forall|j: int|
                0 <= j < i ==> !(#[trigger] units@[j].alive && units@[j].side == side),
        decreases n - i,
    {
        if units[i].alive && units[i].side == side {
            found = true;
        }
        i = i + 1;
    }
    proof {
        if !found && any_alive(units@, side) {
            let w = choose|j: int|
                0 <= j < units@.len() && units@[j].alive && units@[j].side == side;
            assert(!(units@[w].alive && units@[w].side == side));
        }
    }
    found
}

/// Write the symmetric lunge offset to the two combatants: the left one
/// moves right by `x`, the right one left by `x`.
fn set_attack_offsets(units: &mut Vec<Buddy>, lb: usize, rb: usize, x: i64)
    requires
        lb < old(units)@.len(),
        rb < old(units)@.len(),
        lb != rb,
        -4 * (RANGE_MAX as int) <= x <= 4 * (RANGE_MAX as int),
    ensures
        final(units)@.len() == old(units)@.len(),
        forall|i: int|
            0 <= i < final(units)@.len() && i != lb && i != rb ==> final(units)@[i] == #[trigger] old(
            units,
        )@[i],
        final(units)@[lb as int] == (Buddy { offset_x: x, ..old(units)@[lb as int] }),
        final(units)@[rb as int] == (Buddy { offset_x: -x as i64, ..old(units)@[rb as int] }),
{
    units[lb].offset_x = x;
    units[rb].offset_x = -x;
}

/// On the tick the lunge lands: remove each captured strength from the
/// opposing front unit's health and note who fell to zero display value.
fn apply_damage(units: &mut Vec<Buddy>, lb: usize, rb: usize, left_strength: usize,
    right_strength: usize) -> (died: (bool, bool))
    requires
        lb < old(units)@.len(),
        rb < old(units)@.len(),
        lb != rb,
        left_strength <= STAT_MAX,
        right_strength <= STAT_MAX,
        0 <= old(units)@[lb as int].health.0.spec_current() <= STAT_MAX,
        0 <= old(units)@[rb as int].health.0.spec_current() <= STAT_MAX,
    ensures
        final(units)@.len() == old(units)@.len(),
        forall|i: int|
            0 <= i < final(units)@.len() && i != lb && i != rb ==> final(units)@[i] == #[trigger] old(
            units,
        )@[i],
        final(units)@[lb as int] == (Buddy {
            health: final(units)@[lb as int].health,
            ..old(units)@[lb as int]
        }),
        attr_damaged(
            old(units)@[lb as int].health.0,
            final(units)@[lb as int].health.0,
            right_strength as int,
        ),
        final(units)@[rb as int] == (Buddy {
            health: final(units)@[rb as int].health,
            ..old(units)@[rb as int]
        }),
        attr_damaged(
            old(units)@[rb as int].health.0,
            final(units)@[rb as int].health.0,
            left_strength as int,
        ),
        died.0 == (final(units)@[lb as int].health.0.spec_current() <= 0),
        died.1 == (final(units)@[rb as int].health.0.spec_current() <= 0),
{
    proof {
        assert(STAT_MAX <= isize::MAX as usize);
        assert(0 - STAT_MAX as int >= isize::MIN as int);
    }
    units[lb].health.0.remove(right_strength);
    let left_died = units[lb].health.0.value() == 0;
    units[rb].health.0.remove(left_strength);
    let right_died = units[rb].health.0.value() == 0;
    (left_died, right_died)
}

/// The transform the slide applies to one unit, given which sides lost
/// their combatant: the dying unit shrinks as the slide progresses, its
/// side-mates slide toward the vacated slot, everyone else stands still.
pub open spec fn shift_visual(pre: Buddy, i: int, lb: int, rb: int, ld: bool, rd: bool, x: int,
    percent: int) -> Buddy {
    if ld && pre.side == Side::Left {
        if i == lb {
            Buddy {
                scale_x: (FIX_ONE - percent) as u64,
                scale_y: (FIX_ONE - percent) as u64,
                ..pre
            }
        } else {
            Buddy { offset_x: x as i64, ..pre }
        }
    } else if rd && pre.side == Side::Right {
        if i == rb {
            Buddy {
                scale_x: (FIX_ONE - percent) as u64,
                scale_y: (FIX_ONE - percent) as u64,
                ..pre
            }
        } else {
            Buddy { offset_x: (-x) as i64, ..pre }
        }
    } else {
        pre
    }
}

/// Apply the slide's per-tick cosmetics to the whole arena.
fn shift_cosmetics(units: &mut Vec<Buddy>, lb: usize, rb: usize, ld: bool, rd: bool, x: i64,
    percent: u64)
    requires
        percent <= FIX_ONE,
        -4 * (RANGE_MAX as int) <= x <= 4 * (RANGE_MAX as int),
    ensures
        final(units)@.len() == old(units)@.len(),
        forall|i: int|
            0 <= i < final(units)@.len() ==> final(units)@[i] == shift_visual(
                #[trigger] old(units)@[i],
                i,
                lb as int,
                rb as int,
                ld,
                rd,
                x as int,
                percent as int,
            ),
{
    let n = units.len();
    let mut i: usize = 0;
    while i < n
        invariant
            n == units@.len() == old(units)@.len(),
            i <= n,
            percent <= FIX_ONE,
            -4 * (RANGE_MAX as int) <= x <= 4 * (RANGE_MAX as int),
            forall|j: int|
                0 <= j < i ==> units@[j] == shift_visual(
                    #[trigger] old(units)@[j],
                    j,
                    lb as int,
                    rb as int,
                    ld,
                    rd,
                    x as int,
                    percent as int,
                ),
            forall|j: int| i <= j < n ==> units@[j] == #[trigger] old(units)@[j],
        decreases n - i,
    {
        if ld && matches!(units[i].side, Side::Left) {
            if i == lb {
                units[i].scale_x = FIX_ONE - percent;
                units[i].scale_y = FIX_ONE - percent;
            } else {
                units[i].offset_x = x;
            }
        } else if rd && matches!(units[i].side, Side::Right) {
            if i == rb {
                units[i].scale_x = FIX_ONE - percent;
                units[i].scale_y = FIX_ONE - percent;
            } else {
                units[i].offset_x = -x;
            }
        }
        i = i + 1;
    }
}

/// The state of the arena after one side's re-compaction: the dying unit
/// dead at the sentinel slot, its remaining alive side-mates moved forward
/// one slot with cleared offsets, everything else untouched.
pub open spec fn recompacted(pre: Seq<Buddy>, post: Seq<Buddy>, dying: int, side: Side) -> bool {
    &&& post.len() == pre.len()
    &&& 0 <= dying < pre.len()
    &&& post[dying] == (Buddy {
        alive: false,
        slot: (Slot { base: pre[dying].slot.base, current: SLOT_SENTINEL }),
        ..pre[dying]
    })
    &&& forall|i: int|
        0 <= i < post.len() && i != dying && #[trigger] pre[i].side == side && pre[i].alive
            ==> post[i] == (Buddy {
            slot: (Slot {
                base: pre[i].slot.base,
                current: (pre[i].slot.current - 1) as usize,
            }),
            offset_x: 0,
            ..pre[i]
        })
    &&& forall|i: int|
        0 <= i < post.len() && i != dying && !(#[trigger] pre[i].side == side && pre[i].alive)
            ==> post[i] == pre[i]
}

/// At the end of the slide, for one side that lost its combatant: mark the
/// dying unit dead at the sentinel slot, and move every remaining alive
/// unit of the side forward one slot, clearing its offset.
fn recompact_side(units: &mut Vec<Buddy>, dying: usize, side: Side)
    requires
        dying < old(units)@.len(),
        old(units)@[dying as int].alive,
        old(units)@[dying as int].side == side,
        old(units)@[dying as int].slot.current == 0,
        side == Side::Left || side == Side::Right,
        units_wf(old(units)@),
    ensures
        units_wf(final(units)@),
        count_alive(final(units)@, side) == count_alive(old(units)@, side) - 1,
        final(units)@.len() == old(units)@.len(),
        recompacted(old(units)@, final(units)@, dying as int, side),
{
    let n = units.len();
    let mut i: usize = 0;
    while i < n
        invariant
            n == units@.len() == old(units)@.len(),
            i <= n,
            dying < n,
            old(units)@[dying as int].alive,
            old(units)@[dying as int].side == side,
            old(units)@[dying as int].slot.current == 0,
            side == Side::Left || side == Side::Right,
            units_wf(old(units)@),
            side_slots_wf(old(units)@, side),
            forall|j: int| i <= j < n ==> units@[j] == #[trigger] old(units)@[j],
            i > dying ==> units@[dying as int] == (Buddy {
                alive: false,
                slot: (Slot { base: old(units)@[dying as int].slot.base, current: SLOT_SENTINEL }),
                ..old(units)@[dying as int]
            }),
            forall|j: int|
                0 <= j < i && j != dying && #[trigger] old(units)@[j].side == side && old(
                    units,
                )@[j].alive ==> units@[j] == (Buddy {
                    slot: (Slot {
                        base: old(units)@[j].slot.base,
                        current: (old(units)@[j].slot.current - 1) as usize,
                    }),
                    offset_x: 0,
                    ..old(units)@[j]
                }),
            forall|j: int|
                0 <= j < i && j != dying && !(#[trigger] old(units)@[j].side == side && old(
                    units,
                )@[j].alive) ==> units@[j] == old(units)@[j],
        decreases n - i,
    {
        let same_side = side_eq(units[i].side, side);
        if same_side {
            if i == dying {
                units[i].alive = false;
                units[i].slot.current = SLOT_SENTINEL;
            } else if units[i].alive {
                proof {
                    assert(old(units)@[i as int].slot.current != old(
                        units,
                    )@[dying as int].slot.current);
                }
                units[i].slot.current = units[i].slot.current - 1;
                units[i].offset_x = 0;
            }
        }
        i = i + 1;
    }
    proof {
        let pre = old(units)@;
        let post = units@;
        assert forall|i: int|
            #![trigger post[i], pre[i]]
            0 <= i < pre.len() implies {
            &&& post[i].side == pre[i].side
            &&& post[i].slot.base == pre[i].slot.base
            &&& post[i].health == pre[i].health
            &&& post[i].strength == pre[i].strength
            &&& i != dying ==> post[i].alive == pre[i].alive
            &&& (i != dying && pre[i].side == side && pre[i].alive) ==> post[i].slot.current
                == pre[i].slot.current - 1
            &&& (i != dying && !(pre[i].side == side && pre[i].alive)) ==> post[i].slot
                == pre[i].slot
        } by {
            if i == dying {
            } else if pre[i].side == side && pre[i].alive {
            } else {
                assert(post[i] == pre[i]);
            }
        }
        lemma_count_alive_kill_one(pre, post, side, dying as int);
        if side != Side::Left {
            lemma_count_alive_agree(pre, post, Side::Left);
        }
        if side != Side::Right {
            lemma_count_alive_agree(pre, post, Side::Right);
        }
        lemma_count_side_agree(pre, post, Side::Left);
        assert forall|i: int| 0 <= i < post.len() implies unit_wf(#[trigger] post[i]) by {
            assert(unit_wf(pre[i]));
            if i == dying {
            } else if pre[i].side == side && pre[i].alive {
                assert(pre[i].slot.current != pre[dying as int].slot.current);
            } else {
                assert(post[i] == pre[i]);
            }
        }
        assert forall|i: int, j: int|
            0 <= i < post.len() && 0 <= j < post.len() && i != j && post[i].alive && post[j].alive
                && post[i].side == side && post[j].side == side implies #[trigger] post[i].slot.current
            != #[trigger] post[j].slot.current by {
            assert(pre[i].side == side && pre[j].side == side);
            assert(pre[i].alive && pre[j].alive);
            assert(pre[i].slot.current != pre[j].slot.current);
            assert(pre[i].slot.current != pre[dying as int].slot.current);
            assert(pre[j].slot.current != pre[dying as int].slot.current);
        }
        assert forall|i: int|
            0 <= i < post.len() && post[i].alive && #[trigger] post[i].side
                == side implies post[i].slot.current < count_alive(post, side) by {
            assert(pre[i].alive && pre[i].side == side);
            assert(pre[i].slot.current < count_alive(pre, side));
            assert(pre[i].slot.current != pre[dying as int].slot.current);
        }
        let other = if side == Side::Left {
            Side::Right
        } else {
            Side::Left
        };
        assert forall|i: int, j: int|
            0 <= i < post.len() && 0 <= j < post.len() && i != j && post[i].alive && post[j].alive
                && post[i].side == other && post[j].side == other implies #[trigger] post[i].slot.current
            != #[trigger] post[j].slot.current by {
            assert(pre[i].side == other && pre[j].side == other);
            assert(post[i] == pre[i] && post[j] == pre[j]);
            assert(pre[i].slot.current != pre[j].slot.current);
        }
        assert forall|i: int|
            0 <= i < post.len() && post[i].alive && #[trigger] post[i].side
                == other implies post[i].slot.current < count_alive(post, other) by {
            assert(pre[i].side == other);
            assert(post[i] == pre[i]);
            assert(pre[i].alive);
            assert(pre[i].slot.current < count_alive(pre, other));
            assert(count_alive(post, other) == count_alive(pre, other));
        }
        assert forall|i: int, j: int|
            0 <= i < post.len() && 0 <= j < post.len() && i != j && post[i].side == Side::Left
                && post[j].side == Side::Left implies #[trigger] post[i].slot.base
            != #[trigger] post[j].slot.base by {
            assert(pre[i].side == Side::Left && pre[j].side == Side::Left);
            assert(pre[i].slot.base != pre[j].slot.base);
        }
        assert forall|i: int|
            0 <= i < post.len() && #[trigger] post[i].side == Side::Left implies post[i].slot.base
            < count_side(post, Side::Left) by {
            assert(pre[i].side == Side::Left);
            assert(pre[i].slot.base < count_side(pre, Side::Left));
        }
    }
}

/// Whether two sides are the same.
fn side_eq(a: Side, b: Side) -> (r: bool)
    ensures
        r == (a == b),
{
    match (a, b) {
        (Side::Left, Side::Left) => true,
        (Side::Right, Side::Right) => true,
        (Side::Shop, Side::Shop) => true,
        _ => false,
    }
}

/// The roster restoration at the end of a session: every left unit comes
/// back alive at its base slot with base stats and cleared cosmetics.
fn restore_left(units: &mut Vec<Buddy>)
    requires
        forall|i: int| 0 <= i < old(units)@.len() ==> unit_wf(#[trigger] old(units)@[i]),
    ensures
        final(units)@.len() == old(units)@.len(),
        forall|i: int|
            0 <= i < final(units)@.len() && #[trigger] old(units)@[i].side != Side::Left ==> final(
            units)@[i] == old(units)@[i],
        forall|i: int|
            0 <= i < final(units)@.len() && #[trigger] old(units)@[i].side == Side::Left ==> {
                &&& final(units)@[i] == (Buddy {
                    alive: true,
                    slot: (Slot {
                        base: old(units)@[i].slot.base,
                        current: old(units)@[i].slot.base,
                    }),
                    health: final(units)@[i].health,
                    strength: final(units)@[i].strength,
                    offset_x: 0,
                    scale_x: FIX_ONE,
                    scale_y: FIX_ONE,
                    ..old(units)@[i]
                })
                &&& attr_reset(old(units)@[i].health.0, final(units)@[i].health.0)
                &&& attr_reset(old(units)@[i].strength.0, final(units)@[i].strength.0)
            },
{
    let n = units.len();
    let mut i: usize = 0;
    while i < n
        invariant
            n == units@.len() == old(units)@.len(),
            i <= n,
            forall|j: int| 0 <= j < n ==> unit_wf(#[trigger] old(units)@[j]),
            forall|j: int| i <= j < n ==> units@[j] == #[trigger] old(units)@[j],
            forall|j: int|
                0 <= j < i && #[trigger] old(units)@[j].side != Side::Left ==> units@[j] == old(
                units)@[j],
            forall|j: int|
                0 <= j < i && #[trigger] old(units)@[j].side == Side::Left ==> {
                    &&& units@[j] == (Buddy {
                        alive: true,
                        slot: (Slot {
                            base: old(units)@[j].slot.base,
                            current: old(units)@[j].slot.base,
                        }),
                        health: units@[j].health,
                        strength: units@[j].strength,
                        offset_x: 0,
                        scale_x: FIX_ONE,
                        scale_y: FIX_ONE,
                        ..old(units)@[j]
                    })
                    &&& attr_reset(old(units)@[j].health.0, units@[j].health.0)
                    &&& attr_reset(old(units)@[j].strength.0, units@[j].strength.0)
                },
        decreases n - i,
    {
        if matches!(units[i].side, Side::Left) {
            proof {
                assert(unit_wf(old(units)@[i as int]));
                assert(STAT_MAX <= isize::MAX as usize);
            }
            units[i].alive = true;
            units[i].slot.reset();
            units[i].health.0.reset();
            units[i].strength.0.reset();
            units[i].offset_x = 0;
            units[i].scale_x = FIX_ONE;
            units[i].scale_y = FIX_ONE;
        }
        i = i + 1;
    }
}

/// A non-repeating timer crosses its duration on this tick.
pub open spec fn just_finishes(t: Timer, delta: int) -> bool {
    t.elapsed() < t.duration() && t.elapsed() + delta >= t.duration()
}

/// Elapsed time of a non-repeating timer after one tick by `delta`.
pub open spec fn elapsed_after(t: Timer, delta: int) -> int {
    if t.elapsed() + delta >= t.duration() {
        t.duration()
    } else {
        t.elapsed() + delta
    }
}

/// The progress fraction a duration maps an elapsed time to.
pub open spec fn percent_for(duration: int, elapsed: int) -> int {
    if duration == 0 {
        FIX_ONE as int
    } else {
        elapsed * (FIX_ONE as int) / duration
    }
}

/// The value a non-repeating interpolator yields after one tick by `delta`.
pub open spec fn value_after(a: AnimateRange, delta: int) -> int {
    a.value_for(
        ease_spec(
            a.spec_ease(),
            percent_for(a.timer().duration(), elapsed_after(a.timer(), delta)),
        ),
    )
}

/// A ticked interpolator yields exactly `value_after` of its pre-state.
pub proof fn lemma_value_after(pre: AnimateRange, post: AnimateRange, delta: int)
    requires
        post.same_config(pre),
        timer_ticked(pre.timer(), post.timer(), delta),
        !pre.timer().is_repeating(),
    ensures
        post.spec_value() == value_after(pre, delta),
        post.timer().spec_percent() == percent_for(
            pre.timer().duration(),
            elapsed_after(pre.timer(), delta),
        ),
{
}

/// A freshly constructed non-repeating interpolator with this shape.
pub open spec fn fresh_range(a: AnimateRange, duration: int, ease: Ease, start: int,
    end: int) -> bool {
    &&& a.inv()
    &&& a.spec_ease() == ease
    &&& a.spec_start() == start && a.spec_end() == end
    &&& a.timer().duration() == duration && a.timer().elapsed() == 0
    &&& !a.timer().is_repeating() && !a.timer().spec_just_finished()
}

/// What one tick of the opening pause does: advance the timer, and move on
/// to the attack scan on the tick the pause runs out.
pub open spec fn begin_step(timer: Timer, post: Action, delta: int) -> bool {
    if just_finishes(timer, delta) {
        post == Action::StartAttack
    } else {
        post matches Action::Begin { timer: t2 } && timer_ticked(timer, t2, delta)
    }
}

/// What one tick of the attack scan does: if both sides have a front
/// combatant, capture them and their strengths and start the lunge with
/// fresh interpolators; otherwise stall in place.
pub open spec fn start_attack_step(units: Seq<Buddy>, post: Action) -> bool {
    if has_front(units, Side::Left) && has_front(units, Side::Right) {
        post matches Action::ExecuteAttack {
            left_buddy,
            right_buddy,
            left_strength,
            right_strength,
            left_died,
            right_died,
            animate_in,
            animate_out,
        } && is_front(units, left_buddy as int, Side::Left) && is_front(
            units,
            right_buddy as int,
            Side::Right,
        ) && left_strength == units[left_buddy as int].strength.0.spec_value() && right_strength
            == units[right_buddy as int].strength.0.spec_value() && !left_died && !right_died
            && fresh_range(animate_in, ATTACK_MS as int, Ease::InOutCirc, 0, ATTACK_OFFSET as int)
            && fresh_range(animate_out, ATTACK_MS as int, Ease::InOutCirc, ATTACK_OFFSET as int, 0)
    } else {
        post == Action::StartAttack
    }
}

/// Both combatants stand displaced by the lunge offset `x`, mirrored, and
/// nothing else changed.
pub open spec fn lunge_applied(pre: Seq<Buddy>, post: Seq<Buddy>, lb: int, rb: int,
    x: int) -> bool {
    &&& post.len() == pre.len()
    &&& 0 <= lb < pre.len() && 0 <= rb < pre.len() && lb != rb
    &&& forall|i: int| 0 <= i < post.len() && i != lb && i != rb ==> post[i] == #[trigger] pre[i]
    &&& post[lb] == (Buddy { offset_x: x as i64, ..pre[lb] })
    &&& post[rb] == (Buddy { offset_x: (-x) as i64, ..pre[rb] })
}

/// As `lunge_applied`, and each combatant's health has additionally lost
/// the opposing captured strength.
pub open spec fn lunge_damage_applied(pre: Seq<Buddy>, post: Seq<Buddy>, lb: int, rb: int,
    ls: int, rs: int, x: int) -> bool {
    &&& post.len() == pre.len()
    &&& 0 <= lb < pre.len() && 0 <= rb < pre.len() && lb != rb
    &&& forall|i: int| 0 <= i < post.len() && i != lb && i != rb ==> post[i] == #[trigger] pre[i]
    &&& post[lb] == (Buddy { offset_x: x as i64, health: post[lb].health, ..pre[lb] })
    &&& attr_damaged(pre[lb].health.0, post[lb].health.0, rs)
    &&& post[rb] == (Buddy { offset_x: (-x) as i64, health: post[rb].health, ..pre[rb] })
    &&& attr_damaged(pre[rb].health.0, post[rb].health.0, ls)
}

/// What one tick of the attack resolution does. While the lunge-in runs,
/// both combatants are displaced by its eased value; on the tick it lands,
/// each loses the opposing captured strength from its health and the death
/// flags record who fell to zero. Afterwards the lunge-out runs the same
/// way, and when it completes the phase hands the captured state to the
/// slide with a fresh interpolator.
pub open spec fn execute_attack_step(lb: usize, rb: usize, ls: usize, rs: usize, ld: bool,
    rd: bool, a_in: AnimateRange, a_out: AnimateRange, pre_units: Seq<Buddy>,
    post_units: Seq<Buddy>, post: Action, delta: int) -> bool {
    if !a_in.timer().spec_finished() {
        let x = value_after(a_in, delta);
        post matches Action::ExecuteAttack {
            left_buddy,
            right_buddy,
            left_strength,
            right_strength,
            left_died,
            right_died,
            animate_in,
            animate_out,
        } && left_buddy == lb && right_buddy == rb && left_strength == ls && right_strength == rs
            && animate_in.same_config(a_in) && timer_ticked(a_in.timer(), animate_in.timer(), delta)
            && animate_out == a_out && if just_finishes(a_in.timer(), delta) {
            &&& lunge_damage_applied(
                pre_units,
                post_units,
                lb as int,
                rb as int,
                ls as int,
                rs as int,
                x,
            )
            &&& left_died == (post_units[lb as int].health.0.spec_current() <= 0)
            &&& right_died == (post_units[rb as int].health.0.spec_current() <= 0)
        } else {
            &&& lunge_applied(pre_units, post_units, lb as int, rb as int, x)
            &&& left_died == ld && right_died == rd
        }
    } else {
        let x = value_after(a_out, delta);
        &&& lunge_applied(pre_units, post_units, lb as int, rb as int, x)
        &&& if a_out.timer().elapsed() + delta >= a_out.timer().duration() {
            post matches Action::Shift {
                animate_shift,
                left_buddy,
                right_buddy,
                left_died,
                right_died,
            } && left_buddy == lb && right_buddy == rb && left_died == ld && right_died == rd
                && fresh_range(
                animate_shift,
                SHIFT_MS as int,
                Ease::InOutCirc,
                0,
                PAD_SPACING as int,
            )
        } else {
            post matches Action::ExecuteAttack {
                left_buddy,
                right_buddy,
                left_strength,
                right_strength,
                left_died,
                right_died,
                animate_in,
                animate_out,
            } && left_buddy == lb && right_buddy == rb && left_strength == ls && right_strength
                == rs && left_died == ld && right_died == rd && animate_in == a_in
                && animate_out.same_config(a_out) && timer_ticked(
                a_out.timer(),
                animate_out.timer(),
                delta,
            )
        }
    }
}

/// Where the slide leaves one unit on the tick it completes: the dying
/// unit is marked dead at the sentinel slot at its final shrunken scale,
/// its remaining alive side-mates move forward one slot with their offset
/// cleared, a dead side-mate keeps the slide offset, and the other side
/// stands untouched.
pub open spec fn shift_settle_unit(pre: Buddy, i: int, lb: int, rb: int, ld: bool, rd: bool,
    x: int, p: int) -> Buddy {
    if ld && pre.side == Side::Left {
        if i == lb {
            Buddy {
                scale_x: (FIX_ONE - p) as u64,
                scale_y: (FIX_ONE - p) as u64,
                alive: false,
                slot: Slot { base: pre.slot.base, current: SLOT_SENTINEL },
                ..pre
            }
        } else if pre.alive {
            Buddy {
                offset_x: 0,
                slot: Slot { base: pre.slot.base, current: (pre.slot.current - 1) as usize },
                ..pre
            }
        } else {
            Buddy { offset_x: x as i64, ..pre }
        }
    } else if rd && pre.side == Side::Right {
        if i == rb {
            Buddy {
                scale_x: (FIX_ONE - p) as u64,
                scale_y: (FIX_ONE - p) as u64,
                alive: false,
                slot: Slot { base: pre.slot.base, current: SLOT_SENTINEL },
                ..pre
            }
        } else if pre.alive {
            Buddy {
                offset_x: 0,
                slot: Slot { base: pre.slot.base, current: (pre.slot.current - 1) as usize },
                ..pre
            }
        } else {
            Buddy { offset_x: (-x) as i64, ..pre }
        }
    } else {
        pre
    }
}

/// The result phase a settled slide opens, with fresh banner
/// interpolators.
pub open spec fn message_shown(post: Action, id: BannerId) -> bool {
    post matches Action::ShowMessage { message, animate_in, animate_out } && message == id
        && fresh_range(animate_in, MESSAGE_IN_MS as int, Ease::OutBack, 0, FIX_ONE as int)
        && fresh_range(animate_out, MESSAGE_OUT_MS as int, Ease::InOutCirc, FIX_ONE as int, 0)
}

/// What one tick of the slide does. While it runs, every unit on a side
/// that lost its combatant slides by the eased offset, except the dying
/// unit, which shrinks. On the tick it completes, the dying units are
/// marked dead, their sides re-compact, and the outcome branch picks the
/// next phase and pays out: another attack while both sides stand, else a
/// banner with its reward.
pub open spec fn shift_step(a_s: AnimateRange, lb: usize, rb: usize, ld: bool, rd: bool,
    pre_units: Seq<Buddy>, post_units: Seq<Buddy>, post: Action, pre_coins: int, post_coins: int,
    pre_won: int, post_won: int, delta: int) -> bool {
    let x = value_after(a_s, delta);
    let p = percent_for(a_s.timer().duration(), elapsed_after(a_s.timer(), delta));
    if !just_finishes(a_s.timer(), delta) {
        &&& post_units == Seq::new(
            pre_units.len(),
            |i: int| shift_visual(pre_units[i], i, lb as int, rb as int, ld, rd, x, p),
        )
        &&& post matches Action::Shift {
            animate_shift,
            left_buddy,
            right_buddy,
            left_died,
            right_died,
        } && left_buddy == lb && right_buddy == rb && left_died == ld && right_died == rd
            && animate_shift.same_config(a_s) && timer_ticked(
            a_s.timer(),
            animate_shift.timer(),
            delta,
        )
        &&& post_coins == pre_coins && post_won == pre_won
    } else {
        let settled = Seq::new(
            pre_units.len(),
            |i: int| shift_settle_unit(pre_units[i], i, lb as int, rb as int, ld, rd, x, p),
        );
        &&& post_units == settled
        &&& {
            let la = any_alive(settled, Side::Left);
            let ra = any_alive(settled, Side::Right);
            if la && ra {
                post == Action::StartAttack && post_coins == pre_coins && post_won == pre_won
            } else if la {
                post_won == pre_won + 1 && post_coins == pre_coins + 5 && message_shown(
                    post,
                    BannerId::YouWin,
                )
            } else if ra {
                post_won == pre_won && post_coins == pre_coins + 2 && message_shown(
                    post,
                    BannerId::YouLose,
                )
            } else {
                post_won == pre_won && post_coins == pre_coins + 3 && message_shown(
                    post,
                    BannerId::YouTie,
                )
            }
        }
    }
}

/// The banner states with one banner set to this visibility and scale.
pub open spec fn banner_set(m: BattleMessages, id: BannerId, visible: bool,
    scale: int) -> BattleMessages {
    let b = Banner { visible, scale_x: scale as i64, scale_y: scale as i64 };
    match id {
        BannerId::YouWin => BattleMessages { you_win: b, ..m },
        BannerId::YouLose => BattleMessages { you_lose: b, ..m },
        BannerId::YouTie => BattleMessages { you_tie: b, ..m },
    }
}

/// What one tick of the result phase does: while the entrance runs the
/// banner is visible at its eased scale; afterwards the exit runs the same
/// way, and on the tick it completes the banner hides and the restore
/// phase opens with a fresh interpolator.
pub open spec fn show_message_step(msg: BannerId, a_in: AnimateRange, a_out: AnimateRange,
    pre_msgs: BattleMessages, post_msgs: BattleMessages, post: Action, delta: int) -> bool {
    if !a_in.timer().spec_finished() {
        let x = value_after(a_in, delta);
        &&& post_msgs == banner_set(pre_msgs, msg, true, x)
        &&& post matches Action::ShowMessage { message, animate_in, animate_out } && message == msg
            && animate_out == a_out && animate_in.same_config(a_in) && timer_ticked(
            a_in.timer(),
            animate_in.timer(),
            delta,
        )
    } else {
        let x = value_after(a_out, delta);
        if just_finishes(a_out.timer(), delta) {
            &&& post_msgs == banner_set(pre_msgs, msg, false, x)
            &&& post matches Action::RestoreBuddies { animate } && fresh_range(
                animate,
                RESTORE_MS as int,
                Ease::InOutCirc,
                0,
                FIX_ONE as int,
            )
        } else {
            &&& post_msgs == banner_set(pre_msgs, msg, true, x)
            &&& post matches Action::ShowMessage { message, animate_in, animate_out } && message
                == msg && animate_in == a_in && animate_out.same_config(a_out) && timer_ticked(
                a_out.timer(),
                animate_out.timer(),
                delta,
            )
        }
    }
}

/// Every left unit stands alive at its base slot with base stats and
/// cleared cosmetics; everything else is untouched.
pub open spec fn left_restored(pre: Seq<Buddy>, post: Seq<Buddy>) -> bool {
    &&& post.len() == pre.len()
    &&& forall|i: int|
        0 <= i < post.len() && #[trigger] pre[i].side != Side::Left ==> post[i] == pre[i]
    &&& forall|i: int|
        0 <= i < post.len() && #[trigger] pre[i].side == Side::Left ==> {
            &&& post[i] == (Buddy {
                alive: true,
                slot: (Slot { base: pre[i].slot.base, current: pre[i].slot.base }),
                health: post[i].health,
                strength: post[i].strength,
                offset_x: 0,
                scale_x: FIX_ONE,
                scale_y: FIX_ONE,
                ..pre[i]
            })
            &&& attr_reset(pre[i].health.0, post[i].health.0)
            &&& attr_reset(pre[i].strength.0, post[i].strength.0)
        }
}

/// What one tick of the restore delay does: the timer advances as a pure
/// visual delay, and on the tick it runs out the left roster is restored
/// and the transition to the shop is requested, exactly once.
pub open spec fn restore_step(a: AnimateRange, pre_units: Seq<Buddy>, post_units: Seq<Buddy>,
    post: Action, go_shop: bool, delta: int) -> bool {
    &&& post matches Action::RestoreBuddies { animate } && animate.same_config(a) && timer_ticked(
        a.timer(),
        animate.timer(),
        delta,
    )
    &&& if just_finishes(a.timer(), delta) {
        go_shop && left_restored(pre_units, post_units)
    } else {
        !go_shop && post_units == pre_units
    }
}

/// A change that leaves every unit's side, liveness, slot, strength and
/// health base untouched, and keeps current health within bounds, cannot
/// break the arena invariant.
proof fn lemma_units_wf_same_core(pre: Seq<Buddy>, post: Seq<Buddy>)
    requires
        units_wf(pre),
        post.len() == pre.len(),
        forall|i: int|
            #![trigger post[i]]
            0 <= i < pre.len() ==> {
                &&& post[i].side == pre[i].side
                &&& post[i].alive == pre[i].alive
                &&& post[i].slot == pre[i].slot
                &&& post[i].strength.0.spec_current() == pre[i].strength.0.spec_current()
                &&& post[i].strength.0.spec_base() == pre[i].strength.0.spec_base()
                &&& post[i].health.0.spec_base() == pre[i].health.0.spec_base()
                &&& -2 * (STAT_MAX as int) <= post[i].health.0.spec_current() <= STAT_MAX
            },
    ensures
        units_wf(post),
{
    lemma_count_alive_agree(pre, post, Side::Left);
    lemma_count_alive_agree(pre, post, Side::Right);
    lemma_count_side_agree(pre, post, Side::Left);
    assert forall|i: int| 0 <= i < post.len() implies unit_wf(#[trigger] post[i]) by {
        assert(unit_wf(pre[i]));
    }
}

/// One tick of the opening pause.
fn step_begin(timer: &mut Timer, delta_ms: u64) -> (next: Option<Action>)
    requires
        old(timer).inv(),
        !old(timer).is_repeating(),
    ensures
        final(timer).inv(),
        !final(timer).is_repeating(),
        timer_ticked(*old(timer), *final(timer), delta_ms as int),
        next is Some <==> just_finishes(*old(timer), delta_ms as int),
        next is Some ==> next->Some_0 == Action::StartAttack,
{
    timer.tick(delta_ms);
    if timer.just_finished() {
        Some(Action::StartAttack)
    } else {
        None
    }
}

/// One tick of the attack scan: capture both front combatants if they
/// exist, else stall.
fn step_start_attack(units: &Vec<Buddy>) -> (next: Option<Action>)
    requires
        units_wf(units@),
        healths_displayable(units@),
    ensures
        match next {
            Some(a) => {
                &&& start_attack_step(units@, a)
                &&& action_wf(a, units@)
                &&& a matches Action::ExecuteAttack { .. }
            },
            None => !(has_front(units@, Side::Left) && has_front(units@, Side::Right)),
        },
{
    let left = find_front(units, Side::Left);
    let right = find_front(units, Side::Right);
    match (left, right) {
        (Some(lp), Some(rp)) => {
            proof {
                assert(unit_wf(units@[lp.0 as int]));
                assert(unit_wf(units@[rp.0 as int]));
            }
            Some(
                Action::ExecuteAttack {
                    left_buddy: lp.0,
                    right_buddy: rp.0,
                    left_strength: lp.1,
                    right_strength: rp.1,
                    left_died: false,
                    right_died: false,
                    animate_in: AnimateRange::new(ATTACK_MS, Ease::InOutCirc, 0, ATTACK_OFFSET,
                        false),
                    animate_out: AnimateRange::new(ATTACK_MS, Ease::InOutCirc, ATTACK_OFFSET, 0,
                        false),
                },
            )
        },
        _ => None,
    }
}

/// One tick of the result phase: drive the banner's entrance, then its
/// exit, and open the restore phase when the exit completes.
fn step_show_message(battle_messages: &mut BattleMessages, message: BannerId,
    animate_in: &mut AnimateRange, animate_out: &mut AnimateRange, delta_ms: u64) -> (next: Option<
    Action>)
    requires
        old(animate_in).inv() && !old(animate_in).timer().is_repeating(),
        old(animate_out).inv() && !old(animate_out).timer().is_repeating(),
    ensures
        final(animate_in).inv() && !final(animate_in).timer().is_repeating(),
        final(animate_out).inv() && !final(animate_out).timer().is_repeating(),
        show_message_step(
            message,
            *old(animate_in),
            *old(animate_out),
            *old(battle_messages),
            *final(battle_messages),
            if next is Some {
                next->Some_0
            } else {
                Action::ShowMessage {
                    message,
                    animate_in: *final(animate_in),
                    animate_out: *final(animate_out),
                }
            },
            delta_ms as int,
        ),
        next is Some ==> next->Some_0 matches Action::RestoreBuddies { .. },
        next is Some ==> (next->Some_0 matches Action::RestoreBuddies { animate } && animate.inv()
            && !animate.timer().is_repeating()),
{
    let mut visible = true;
    let mut next: Option<Action> = None;
    let x: i64;
    if !animate_in.finished() {
        x = animate_in.tick(delta_ms);
        proof {
            lemma_value_after(*old(animate_in), *animate_in, delta_ms as int);
        }
    } else {
        x = animate_out.tick(delta_ms);
        proof {
            lemma_value_after(*old(animate_out), *animate_out, delta_ms as int);
        }
        if animate_out.just_finished() {
            next = Some(
                Action::RestoreBuddies {
                    animate: AnimateRange::new(RESTORE_MS, Ease::InOutCirc, 0, FIX_ONE, false),
                },
            );
            visible = false;
        }
    }
    match message {
        BannerId::YouWin => {
            battle_messages.you_win.visible = visible;
            battle_messages.you_win.scale_x = x;
            battle_messages.you_win.scale_y = x;
        },
        BannerId::YouLose => {
            battle_messages.you_lose.visible = visible;
            battle_messages.you_lose.scale_x = x;
            battle_messages.you_lose.scale_y = x;
        },
        BannerId::YouTie => {
            battle_messages.you_tie.visible = visible;
            battle_messages.you_tie.scale_x = x;
            battle_messages.you_tie.scale_y = x;
        },
    }
    next
}

/// One tick of the restore delay: a pure visual wait, ending in the
/// roster restoration and the request to return to the shop.
fn step_restore(units: &mut Vec<Buddy>, animate: &mut AnimateRange, delta_ms: u64) -> (go_shop:
    bool)
    requires
        units_wf(old(units)@),
        healths_displayable(old(units)@),
        old(animate).inv() && !old(animate).timer().is_repeating(),
    ensures
        units_wf(final(units)@),
        healths_displayable(final(units)@),
        final(animate).inv() && !final(animate).timer().is_repeating(),
        restore_step(
            *old(animate),
            old(units)@,
            final(units)@,
            Action::RestoreBuddies { animate: *final(animate) },
            go_shop,
            delta_ms as int,
        ),
{
    animate.tick(delta_ms);
    if animate.just_finished() {
        let ghost pre = units@;
        restore_left(units);
        proof {
            lemma_restored_wf(pre, units@);
        }
        true
    } else {
        false
    }
}

/// Restoring the left roster to base positions re-establishes the arena
/// invariant and leaves every alive unit displayable.
proof fn lemma_restored_wf(pre: Seq<Buddy>, post: Seq<Buddy>)
    requires
        units_wf(pre),
        healths_displayable(pre),
        left_restored(pre, post),
    ensures
        units_wf(post),
        healths_displayable(post),
{
    assert forall|i: int|
        #![trigger post[i], pre[i]]
        0 <= i < post.len() implies {
        &&& post[i].side == pre[i].side
        &&& pre[i].side == Side::Left ==> post[i].alive && post[i].slot.current
            == pre[i].slot.base && post[i].slot.base == pre[i].slot.base
            && post[i].health.0.spec_current() == pre[i].health.0.spec_base()
            && post[i].health.0.spec_base() == pre[i].health.0.spec_base()
            && post[i].strength.0.spec_current() == pre[i].strength.0.spec_base()
            && post[i].strength.0.spec_base() == pre[i].strength.0.spec_base()
        &&& pre[i].side != Side::Left ==> post[i] == pre[i]
    } by {
        assert(pre[i].side == Side::Left || pre[i].side != Side::Left);
    }
    lemma_count_side_agree(pre, post, Side::Left);
    lemma_count_alive_agree(pre, post, Side::Right);
    lemma_count_alive_le_side(post, Side::Left);
    assert forall|i: int| 0 <= i < post.len() implies unit_wf(#[trigger] post[i]) by {
        assert(unit_wf(pre[i]));
        assert(post[i].side == pre[i].side);
        lemma_attr_base_nonneg(pre[i].health.0);
        lemma_attr_base_nonneg(pre[i].strength.0);
        if pre[i].side == Side::Left {
            assert(post[i].alive && post[i].slot.current == pre[i].slot.base);
        } else {
            assert(post[i] == pre[i]);
        }
    }
    assert forall|j: int|
        0 <= j < post.len() && #[trigger] post[j].side == Side::Left implies post[j].alive by {
        assert(post[j].side == pre[j].side);
    }
    assert(count_alive(post, Side::Left) == count_side(post, Side::Left));
    assert forall|i: int|
        0 <= i < post.len() && post[i].alive && #[trigger] post[i].side
            == Side::Left implies post[i].slot.current < count_alive(post, Side::Left) by {
        assert(unit_wf(pre[i]));
        assert(pre[i].slot.base < count_side(pre, Side::Left));
    }
    assert forall|i: int|
        0 <= i < post.len() && post[i].alive && #[trigger] post[i].side
            == Side::Right implies post[i].slot.current < count_alive(post, Side::Right) by {
        assert(pre[i].alive);
        assert(pre[i].slot.current < count_alive(pre, Side::Right));
    }
    assert forall|i: int|
        0 <= i < post.len() && #[trigger] post[i].alive implies post[i].health.0.spec_current()
        >= 0 by {
        assert(unit_wf(pre[i]));
        lemma_attr_base_nonneg(pre[i].health.0);
        if pre[i].side != Side::Left {
            assert(pre[i].alive);
        }
    }
    assert forall|i: int, j: int|
        0 <= i < post.len() && 0 <= j < post.len() && i != j && post[i].alive && post[j].alive
            && post[i].side == Side::Left && post[j].side == Side::Left implies #[trigger] post[i].slot.current
        != #[trigger] post[j].slot.current by {
        assert(post[i].side == pre[i].side && post[j].side == pre[j].side);
        assert(pre[i].slot.base != pre[j].slot.base);
    }
    assert forall|i: int, j: int|
        0 <= i < post.len() && 0 <= j < post.len() && i != j && post[i].alive && post[j].alive
            && post[i].side == Side::Right && post[j].side == Side::Right implies #[trigger] post[i].slot.current
        != #[trigger] post[j].slot.current by {
        assert(post[i].side == pre[i].side && post[j].side == pre[j].side);
        assert(post[i] == pre[i] && post[j] == pre[j]);
        assert(pre[i].slot.current != pre[j].slot.current);
    }
    assert forall|i: int, j: int|
        0 <= i < post.len() && 0 <= j < post.len() && i != j && post[i].side == Side::Left
            && post[j].side == Side::Left implies #[trigger] post[i].slot.base
        != #[trigger] post[j].slot.base by {
        assert(post[i].side == pre[i].side && post[j].side == pre[j].side);
        assert(pre[i].slot.base != pre[j].slot.base);
        assert(post[i].slot.base == pre[i].slot.base && post[j].slot.base == pre[j].slot.base);
    }
    assert forall|i: int|
        0 <= i < post.len() && #[trigger] post[i].side == Side::Left implies post[i].slot.base
        < count_side(post, Side::Left) by {
        assert(post[i].side == pre[i].side);
        assert(pre[i].slot.base < count_side(pre, Side::Left));
        assert(post[i].slot.base == pre[i].slot.base);
    }
}

/// One tick of the attack resolution: drive the lunge in, land the damage
/// on the tick it completes, drive the lunge back out, and hand over to
/// the slide when it has returned.
fn step_execute_attack(units: &mut Vec<Buddy>, lb: usize, rb: usize, ls: usize, rs: usize,
    left_died: &mut bool, right_died: &mut bool, animate_in: &mut AnimateRange,
    animate_out: &mut AnimateRange, delta_ms: u64) -> (next: Option<Action>)
    requires
        units_wf(old(units)@),
        old(animate_in).inv() && !old(animate_in).timer().is_repeating(),
        old(animate_out).inv() && !old(animate_out).timer().is_repeating(),
        attack_handles_wf(old(units)@, lb as int, rb as int),
        ls <= STAT_MAX && rs <= STAT_MAX,
        !old(animate_in).timer().spec_finished() ==> healths_displayable(old(units)@) && !*old(
            left_died,
        ) && !*old(right_died),
        old(animate_in).timer().spec_finished() ==> healths_displayable_except(
            old(units)@,
            lb as int,
            rb as int,
        ) && (*old(left_died) <==> old(units)@[lb as int].health.0.spec_current() <= 0) && (*old(
            right_died,
        ) <==> old(units)@[rb as int].health.0.spec_current() <= 0),
    ensures
        units_wf(final(units)@),
        execute_attack_step(
            lb,
            rb,
            ls,
            rs,
            *old(left_died),
            *old(right_died),
            *old(animate_in),
            *old(animate_out),
            old(units)@,
            final(units)@,
            if next is Some {
                next->Some_0
            } else {
                Action::ExecuteAttack {
                    left_buddy: lb,
                    right_buddy: rb,
                    left_strength: ls,
                    right_strength: rs,
                    left_died: *final(left_died),
                    right_died: *final(right_died),
                    animate_in: *final(animate_in),
                    animate_out: *final(animate_out),
                }
            },
            delta_ms as int,
        ),
        action_wf(
            if next is Some {
                next->Some_0
            } else {
                Action::ExecuteAttack {
                    left_buddy: lb,
                    right_buddy: rb,
                    left_strength: ls,
                    right_strength: rs,
                    left_died: *final(left_died),
                    right_died: *final(right_died),
                    animate_in: *final(animate_in),
                    animate_out: *final(animate_out),
                }
            },
            final(units)@,
        ),
        next is Some ==> next->Some_0 matches Action::Shift { .. },
{
    let ghost pre = units@;
    proof {
        assert(pre[lb as int].side == Side::Left && pre[rb as int].side == Side::Right);
        assert(lb != rb);
    }
    if !animate_in.finished() {
        let x = animate_in.tick(delta_ms);
        proof {
            lemma_value_after(*old(animate_in), *animate_in, delta_ms as int);
        }
        set_attack_offsets(units, lb, rb, x);
        let ghost mid = units@;
        proof {
            assert forall|i: int|
                #![trigger mid[i]]
                0 <= i < pre.len() implies {
                &&& mid[i].side == pre[i].side
                &&& mid[i].alive == pre[i].alive
                &&& mid[i].slot == pre[i].slot
                &&& mid[i].strength.0.spec_current() == pre[i].strength.0.spec_current()
                &&& mid[i].strength.0.spec_base() == pre[i].strength.0.spec_base()
                &&& mid[i].health.0.spec_base() == pre[i].health.0.spec_base()
                &&& mid[i].health.0.spec_current() == pre[i].health.0.spec_current()
            } by {
                if i != lb && i != rb {
                    assert(mid[i] == pre[i]);
                }
            }
            assert forall|i: int|
                #![trigger mid[i]]
                0 <= i < pre.len() implies -2 * (STAT_MAX as int)
                <= mid[i].health.0.spec_current() <= STAT_MAX by {
                assert(unit_wf(pre[i]));
            }
            lemma_units_wf_same_core(pre, mid);
        }
        if animate_in.just_finished() {
            proof {
                assert(units@[lb as int].health.0.spec_current() == pre[lb as int
                ].health.0.spec_current());
                assert(pre[lb as int].alive && pre[rb as int].alive);
                assert(unit_wf(pre[lb as int]) && unit_wf(pre[rb as int]));
            }
            let died = apply_damage(units, lb, rb, ls, rs);
            *left_died = died.0;
            *right_died = died.1;
            proof {
                let post = units@;
                assert forall|i: int|
                    #![trigger post[i]]
                    0 <= i < pre.len() implies {
                    &&& post[i].side == pre[i].side
                    &&& post[i].alive == pre[i].alive
                    &&& post[i].slot == pre[i].slot
                    &&& post[i].strength.0.spec_current() == pre[i].strength.0.spec_current()
                    &&& post[i].strength.0.spec_base() == pre[i].strength.0.spec_base()
                    &&& post[i].health.0.spec_base() == pre[i].health.0.spec_base()
                    &&& -2 * (STAT_MAX as int) <= post[i].health.0.spec_current() <= STAT_MAX
                } by {
                    assert(unit_wf(pre[i]));
                    if i != lb && i != rb {
                        assert(post[i] == mid[i] && mid[i] == pre[i]);
                    } else {
                        assert(mid[i].health.0.spec_current() == pre[i].health.0.spec_current());
                    }
                }
                lemma_units_wf_same_core(pre, post);
                assert(post[lb as int] == (Buddy {
                    offset_x: x as i64,
                    health: post[lb as int].health,
                    ..pre[lb as int]
                }));
                assert(post[rb as int] == (Buddy {
                    offset_x: (-x) as i64,
                    health: post[rb as int].health,
                    ..pre[rb as int]
                }));
                assert forall|i: int|
                    0 <= i < post.len() && i != lb as int && i != rb as int implies post[i]
                    == #[trigger] pre[i] by {
                    assert(post[i] == mid[i]);
                }
                assert(lunge_damage_applied(
                    pre,
                    post,
                    lb as int,
                    rb as int,
                    ls as int,
                    rs as int,
                    x as int,
                ));
                assert forall|i: int|
                    0 <= i < post.len() && #[trigger] post[i].alive && i != lb as int && i
                        != rb as int implies post[i].health.0.spec_current() >= 0 by {
                    assert(post[i] == pre[i]);
                    assert(pre[i].alive);
                }
            }
            None
        } else {
            proof {
                assert forall|i: int|
                    0 <= i < units@.len() && #[trigger] units@[i].alive implies units@[
                i].health.0.spec_current() >= 0 by {
                    assert(units@[i].health.0.spec_current() == pre[i].health.0.spec_current());
                    assert(pre[i].alive);
                }
            }
            None
        }
    } else {
        let x = animate_out.tick(delta_ms);
        proof {
            lemma_value_after(*old(animate_out), *animate_out, delta_ms as int);
        }
        set_attack_offsets(units, lb, rb, x);
        proof {
            let post = units@;
            assert forall|i: int|
                #![trigger post[i]]
                0 <= i < pre.len() implies {
                &&& post[i].side == pre[i].side
                &&& post[i].alive == pre[i].alive
                &&& post[i].slot == pre[i].slot
                &&& post[i].strength.0.spec_current() == pre[i].strength.0.spec_current()
                &&& post[i].strength.0.spec_base() == pre[i].strength.0.spec_base()
                &&& post[i].health.0.spec_base() == pre[i].health.0.spec_base()
                &&& post[i].health.0.spec_current() == pre[i].health.0.spec_current()
            } by {
                if i != lb && i != rb {
                    assert(post[i] == pre[i]);
                }
            }
            assert forall|i: int|
                #![trigger post[i]]
                0 <= i < pre.len() implies -2 * (STAT_MAX as int)
                <= post[i].health.0.spec_current() <= STAT_MAX by {
                assert(unit_wf(pre[i]));
            }
            lemma_units_wf_same_core(pre, post);
            assert forall|i: int|
                0 <= i < post.len() && #[trigger] post[i].alive && i != lb as int && i
                    != rb as int implies post[i].health.0.spec_current() >= 0 by {
                assert(post[i].health.0.spec_current() == pre[i].health.0.spec_current());
                assert(pre[i].alive);
            }
        }
        if animate_out.finished() {
            Some(
                Action::Shift {
                    left_buddy: lb,
                    right_buddy: rb,
                    left_died: *left_died,
                    right_died: *right_died,
                    animate_shift: AnimateRange::new(SHIFT_MS, Ease::InOutCirc, 0, PAD_SPACING,
                        false),
                },
            )
        } else {
            None
        }
    }
}

/// Composing the slide's cosmetic pass with the per-side re-compactions
/// settles each unit exactly as `shift_settle_unit` describes, and leaves
/// every still-alive unit displayable.
#[verifier::rlimit(100)]
proof fn lemma_shift_settle(pre: Seq<Buddy>, mid: Seq<Buddy>, m2: Seq<Buddy>, post: Seq<Buddy>,
    lb: int, rb: int, ld: bool, rd: bool, gx: int, gp: int)
    requires
        mid.len() == pre.len(),
        forall|i: int|
            0 <= i < pre.len() ==> #[trigger] mid[i] == shift_visual(pre[i], i, lb, rb, ld, rd, gx,
            gp),
        ld ==> 0 <= lb < pre.len() && pre[lb].side == Side::Left && recompacted(mid, m2, lb,
            Side::Left),
        !ld ==> m2 == mid,
        rd ==> 0 <= rb < pre.len() && pre[rb].side == Side::Right && recompacted(m2, post, rb,
            Side::Right),
        !rd ==> post == m2,
        healths_displayable_except(
            pre,
            if ld {
                lb
            } else {
                -1
            },
            if rd {
                rb
            } else {
                -1
            },
        ),
    ensures
        post.len() == pre.len(),
        forall|i: int|
            0 <= i < pre.len() ==> #[trigger] post[i] == shift_settle_unit(pre[i], i, lb, rb, ld,
            rd, gx, gp),
        healths_displayable(post),
{
    assert forall|i: int| 0 <= i < pre.len() implies #[trigger] post[i] == shift_settle_unit(
        pre[i],
        i,
        lb,
        rb,
        ld,
        rd,
        gx,
        gp,
    ) by {
        assert(mid[i] == shift_visual(pre[i], i, lb, rb, ld, rd, gx, gp));
        if ld && pre[i].side == Side::Left {
            assert(mid[i].side == pre[i].side);
            if i == lb {
                assert(m2[i] == (Buddy {
                    alive: false,
                    slot: (Slot { base: mid[lb].slot.base, current: SLOT_SENTINEL }),
                    ..mid[lb]
                }));
                if rd {
                    assert(i != rb);
                    assert(m2[i].side == Side::Left);
                    assert(post[i] == m2[i]);
                }
            } else if pre[i].alive {
                assert(mid[i].alive && mid[i].side == Side::Left);
                assert(m2[i] == (Buddy {
                    slot: (Slot {
                        base: mid[i].slot.base,
                        current: (mid[i].slot.current - 1) as usize,
                    }),
                    offset_x: 0,
                    ..mid[i]
                }));
                if rd {
                    assert(i != rb);
                    assert(m2[i].side == Side::Left);
                    assert(post[i] == m2[i]);
                }
            } else {
                assert(!(mid[i].side == Side::Left && mid[i].alive));
                assert(m2[i] == mid[i]);
                if rd {
                    assert(i != rb);
                    assert(post[i] == m2[i]);
                }
            }
        } else if rd && pre[i].side == Side::Right {
            if ld {
                assert(i != lb);
                assert(!(mid[i].side == Side::Left && mid[i].alive));
                assert(m2[i] == mid[i]);
            }
            assert(m2[i] == mid[i]);
            if i == rb {
                assert(post[i] == (Buddy {
                    alive: false,
                    slot: (Slot { base: m2[i].slot.base, current: SLOT_SENTINEL }),
                    ..m2[i]
                }));
            } else if pre[i].alive {
                assert(m2[i].alive && m2[i].side == Side::Right);
                assert(post[i] == (Buddy {
                    slot: (Slot {
                        base: m2[i].slot.base,
                        current: (m2[i].slot.current - 1) as usize,
                    }),
                    offset_x: 0,
                    ..m2[i]
                }));
            } else {
                assert(!(m2[i].side == Side::Right && m2[i].alive));
                assert(post[i] == m2[i]);
            }
        } else {
            assert(mid[i] == pre[i]);
            if ld {
                assert(i != lb);
                assert(!(mid[i].side == Side::Left && mid[i].alive));
                assert(m2[i] == mid[i]);
            }
            if rd {
                assert(i != rb);
                assert(!(m2[i].side == Side::Right && m2[i].alive));
                assert(post[i] == m2[i]);
            }
        }
    }
    assert forall|i: int|
        0 <= i < post.len() && #[trigger] post[i].alive implies post[i].health.0.spec_current()
        >= 0 by {
        assert(post[i] == shift_settle_unit(pre[i], i, lb, rb, ld, rd, gx, gp));
        assert(pre[i].alive);
        assert(post[i].health == pre[i].health);
        if ld && i == lb {
            assert(!post[i].alive);
        }
        if rd && i == rb {
            assert(!post[i].alive);
        }
    }
}

/// The tick on which the slide completes: settle the deaths, re-compact
/// both sides that lost their combatant, and take the outcome branch.
#[verifier::rlimit(100)]
fn settle_shift(units: &mut Vec<Buddy>, trophies: &mut Trophies, coins: &mut Coins, lb: usize,
    rb: usize, ld: bool, rd: bool, Ghost(pre): Ghost<Seq<Buddy>>, Ghost(gx): Ghost<int>,
    Ghost(gp): Ghost<int>) -> (next: Action)
    requires
        units_wf(old(units)@),
        old(units)@.len() == pre.len(),
        forall|i: int|
            0 <= i < pre.len() ==> #[trigger] old(units)@[i] == shift_visual(pre[i], i, lb as int,
            rb as int, ld, rd, gx, gp),
        healths_displayable_except(
            pre,
            if ld {
                lb as int
            } else {
                -1
            },
            if rd {
                rb as int
            } else {
                -1
            },
        ),
        ld ==> is_front(pre, lb as int, Side::Left) && pre[lb as int].alive,
        rd ==> is_front(pre, rb as int, Side::Right) && pre[rb as int].alive,
        old(coins).0 + 5 <= usize::MAX,
        old(trophies).won + 1 <= usize::MAX,
    ensures
        units_wf(final(units)@),
        final(trophies).rounds == old(trophies).rounds,
        healths_displayable(final(units)@),
        final(units)@ == Seq::new(
            pre.len(),
            |i: int| shift_settle_unit(pre[i], i, lb as int, rb as int, ld, rd, gx, gp),
        ),
        ({
            let settled = Seq::new(
                pre.len(),
                |i: int| shift_settle_unit(pre[i], i, lb as int, rb as int, ld, rd, gx, gp),
            );
            let la = any_alive(settled, Side::Left);
            let ra = any_alive(settled, Side::Right);
            if la && ra {
                next == Action::StartAttack && final(coins).0 == old(coins).0
                    && final(trophies).won == old(trophies).won
            } else if la {
                final(trophies).won == old(trophies).won + 1 && final(coins).0 == old(coins).0 + 5
                    && message_shown(next, BannerId::YouWin)
            } else if ra {
                final(trophies).won == old(trophies).won && final(coins).0 == old(coins).0 + 2
                    && message_shown(next, BannerId::YouLose)
            } else {
                final(trophies).won == old(trophies).won && final(coins).0 == old(coins).0 + 3
                    && message_shown(next, BannerId::YouTie)
            }
        }),
        next matches Action::StartAttack || next matches Action::ShowMessage { .. },
{
    let ghost mid = units@;
    if ld {
        proof {
            assert(mid[lb as int].alive && mid[lb as int].side == Side::Left && mid[lb as
                int].slot.current == 0);
        }
        recompact_side(units, lb, Side::Left);
    }
    let ghost m2 = units@;
    if rd {
        proof {
            if ld {
                assert(lb != rb);
                assert(m2[rb as int] == mid[rb as int]);
            }
            assert(m2[rb as int].alive && m2[rb as int].side == Side::Right && m2[rb as
                int].slot.current == 0);
        }
        recompact_side(units, rb, Side::Right);
    }
    let ghost post = units@;
    proof {
        if !ld {
            assert(m2 == mid);
        }
        if !rd {
            assert(post == m2);
        }
        lemma_shift_settle(pre, mid, m2, post, lb as int, rb as int, ld, rd, gx, gp);
        assert(post =~= Seq::new(
            pre.len(),
            |i: int| shift_settle_unit(pre[i], i, lb as int, rb as int, ld, rd, gx, gp),
        ));
    }
    let left_alive = side_has_alive(units, Side::Left);
    let right_alive = side_has_alive(units, Side::Right);
    let animate_in = AnimateRange::new(MESSAGE_IN_MS, Ease::OutBack, 0, FIX_ONE, false);
    let animate_out = AnimateRange::new(MESSAGE_OUT_MS, Ease::InOutCirc, FIX_ONE, 0, false);
    if left_alive && right_alive {
        Action::StartAttack
    } else if left_alive {
        trophies.won = trophies.won + 1;
        coins.0 = coins.0 + 5;
        Action::ShowMessage { message: BannerId::YouWin, animate_in, animate_out }
    } else if right_alive {
        coins.0 = coins.0 + 2;
        Action::ShowMessage { message: BannerId::YouLose, animate_in, animate_out }
    } else {
        coins.0 = coins.0 + 3;
        Action::ShowMessage { message: BannerId::YouTie, animate_in, animate_out }
    }
}

/// One tick of the post-death slide: move the cosmetics, and on the tick
/// the slide completes, settle the deaths, re-compact, and take the
/// outcome branch.
#[verifier::rlimit(100)]
fn step_shift(units: &mut Vec<Buddy>, trophies: &mut Trophies, coins: &mut Coins,
    animate_shift: &mut AnimateRange, lb: usize, rb: usize, ld: bool, rd: bool, delta_ms: u64) -> (
    next: Option<Action>)
    requires
        units_wf(old(units)@),
        old(animate_shift).inv() && !old(animate_shift).timer().is_repeating(),
        healths_displayable_except(
            old(units)@,
            if ld {
                lb as int
            } else {
                -1
            },
            if rd {
                rb as int
            } else {
                -1
            },
        ),
        ld ==> is_front(old(units)@, lb as int, Side::Left) && old(units)@[lb as int].alive && old(
            units,
        )@[lb as int].health.0.spec_current() <= 0,
        rd ==> is_front(old(units)@, rb as int, Side::Right) && old(units)@[rb as int].alive
            && old(units)@[rb as int].health.0.spec_current() <= 0,
        old(coins).0 + 5 <= usize::MAX,
        old(trophies).won + 1 <= usize::MAX,
    ensures
        units_wf(final(units)@),
        final(trophies).rounds == old(trophies).rounds,
        shift_step(
            *old(animate_shift),
            lb,
            rb,
            ld,
            rd,
            old(units)@,
            final(units)@,
            if next is Some {
                next->Some_0
            } else {
                Action::Shift {
                    animate_shift: *final(animate_shift),
                    left_buddy: lb,
                    right_buddy: rb,
                    left_died: ld,
                    right_died: rd,
                }
            },
            old(coins).0 as int,
            final(coins).0 as int,
            old(trophies).won as int,
            final(trophies).won as int,
            delta_ms as int,
        ),
        action_wf(
            if next is Some {
                next->Some_0
            } else {
                Action::Shift {
                    animate_shift: *final(animate_shift),
                    left_buddy: lb,
                    right_buddy: rb,
                    left_died: ld,
                    right_died: rd,
                }
            },
            final(units)@,
        ),
        next is Some ==> (next->Some_0 matches Action::StartAttack || next->Some_0
            matches Action::ShowMessage { .. }),
{
    let ghost pre = units@;
    let x = animate_shift.tick(delta_ms);
    let percent = animate_shift.percent();
    proof {
        lemma_value_after(*old(animate_shift), *animate_shift, delta_ms as int);
    }
    let ghost gx = x as int;
    let ghost gp = percent as int;
    shift_cosmetics(units, lb, rb, ld, rd, x, percent);
    let ghost mid = units@;
    proof {
        assert(mid =~= Seq::new(
            pre.len(),
            |i: int| shift_visual(pre[i], i, lb as int, rb as int, ld, rd, gx, gp),
        ));
        assert forall|i: int|
            #![trigger mid[i]]
            0 <= i < pre.len() implies {
            &&& mid[i].side == pre[i].side
            &&& mid[i].alive == pre[i].alive
            &&& mid[i].slot == pre[i].slot
            &&& mid[i].health == pre[i].health
            &&& mid[i].strength == pre[i].strength
        } by {
            assert(mid[i] == shift_visual(pre[i], i, lb as int, rb as int, ld, rd, gx, gp));
        }
        assert forall|i: int|
            #![trigger mid[i]]
            0 <= i < pre.len() implies -2 * (STAT_MAX as int) <= mid[i].health.0.spec_current()
            <= STAT_MAX by {
            assert(unit_wf(pre[i]));
        }
        lemma_units_wf_same_core(pre, mid);
    }
    if animate_shift.just_finished() {
        proof {
            assert forall|i: int| 0 <= i < pre.len() implies #[trigger] units@[i] == shift_visual(
                pre[i],
                i,
                lb as int,
                rb as int,
                ld,
                rd,
                gx,
                gp,
            ) by {
                assert(mid[i] == shift_visual(pre[i], i, lb as int, rb as int, ld, rd, gx, gp));
            }
        }
        let next = settle_shift(units, trophies, coins, lb, rb, ld, rd, Ghost(pre), Ghost(gx),
            Ghost(gp));
        Some(next)
    } else {
        None
    }
}

/// Advance the battle by exactly one step for this tick's elapsed time,
/// reading and writing the unit arena, the outcome banners and the economy
/// ledger, and reporting whether control should return to the shop.
///
/// What each phase does with the tick is pinned down per phase: the
/// opening pause by `begin_step`, the front-combatant scan by
/// `start_attack_step`, the lunge and damage application by
/// `execute_attack_step`, the slide, re-compaction and outcome payout by
/// `shift_step`, the banner by `show_message_step`, and the roster
/// restoration by `restore_step`.
pub fn battle(session: &mut Battle, battle_messages: &mut BattleMessages, trophies: &mut Trophies,
    coins: &mut Coins, units: &mut Vec<Buddy>, delta_ms: u64) -> (go_shop: bool)
    requires
        battle_wf(*old(session), old(units)@),
        old(coins).0 + 5 <= usize::MAX,
        old(trophies).won + 1 <= usize::MAX,
    ensures
        battle_wf(*final(session), final(units)@),
        phase_step(old(session).action, final(session).action),
        final(trophies).rounds == old(trophies).rounds,
        final(units)@.len() == old(units)@.len(),
        (match old(session).action {
            Action::Begin { timer } => {
                &&& begin_step(timer, final(session).action, delta_ms as int)
                &&& final(units)@ == old(units)@
                &&& *final(battle_messages) == *old(battle_messages)
                &&& final(coins).0 == old(coins).0
                &&& final(trophies).won == old(trophies).won
                &&& !go_shop
            },
            Action::StartAttack => {
                &&& start_attack_step(old(units)@, final(session).action)
                &&& final(units)@ == old(units)@
                &&& *final(battle_messages) == *old(battle_messages)
                &&& final(coins).0 == old(coins).0
                &&& final(trophies).won == old(trophies).won
                &&& !go_shop
            },
            Action::ExecuteAttack {
                left_buddy,
                right_buddy,
                left_strength,
                right_strength,
                left_died,
                right_died,
                animate_in,
                animate_out,
            } => {
                &&& execute_attack_step(
                    left_buddy,
                    right_buddy,
                    left_strength,
                    right_strength,
                    left_died,
                    right_died,
                    animate_in,
                    animate_out,
                    old(units)@,
                    final(units)@,
                    final(session).action,
                    delta_ms as int,
                )
                &&& *final(battle_messages) == *old(battle_messages)
                &&& final(coins).0 == old(coins).0
                &&& final(trophies).won == old(trophies).won
                &&& !go_shop
            },
            Action::Shift { animate_shift, left_buddy, right_buddy, left_died, right_died } => {
                &&& shift_step(
                    animate_shift,
                    left_buddy,
                    right_buddy,
                    left_died,
                    right_died,
                    old(units)@,
                    final(units)@,
                    final(session).action,
                    old(coins).0 as int,
                    final(coins).0 as int,
                    old(trophies).won as int,
                    final(trophies).won as int,
                    delta_ms as int,
                )
                &&& *final(battle_messages) == *old(battle_messages)
                &&& !go_shop
            },
            Action::ShowMessage { message, animate_in, animate_out } => {
                &&& show_message_step(
                    message,
                    animate_in,
                    animate_out,
                    *old(battle_messages),
                    *final(battle_messages),
                    final(session).action,
                    delta_ms as int,
                )
                &&& final(units)@ == old(units)@
                &&& final(coins).0 == old(coins).0
                &&& final(trophies).won == old(trophies).won
                &&& !go_shop
            },
            Action::RestoreBuddies { animate } => {
                &&& restore_step(
                    animate,
                    old(units)@,
                    final(units)@,
                    final(session).action,
                    go_shop,
                    delta_ms as int,
                )
                &&& *final(battle_messages) == *old(battle_messages)
                &&& final(coins).0 == old(coins).0
                &&& final(trophies).won == old(trophies).won
            },
        }),
{
    let mut next_action: Option<Action> = None;
    let mut go_shop = false;
    match &mut session.action {
        Action::Begin { timer } => {
            next_action = step_begin(timer, delta_ms);
        },
        Action::StartAttack => {
            next_action = step_start_attack(units);
        },
        Action::ExecuteAttack {
            left_buddy,
            right_buddy,
            left_strength,
            right_strength,
            left_died,
            right_died,
            animate_in,
            animate_out,
        } => {
            let lb = *left_buddy;
            let rb = *right_buddy;
            let ls = *left_strength;
            let rs = *right_strength;
            next_action = step_execute_attack(units, lb, rb, ls, rs, left_died, right_died,
                animate_in, animate_out, delta_ms);
        },
        Action::Shift { animate_shift, left_buddy, right_buddy, left_died, right_died } => {
            let lb = *left_buddy;
            let rb = *right_buddy;
            let ld = *left_died;
            let rd = *right_died;
            next_action = step_shift(units, trophies, coins, animate_shift, lb, rb, ld, rd,
                delta_ms);
        },
        Action::ShowMessage { message, animate_in, animate_out } => {
            let msg = *message;
            next_action = step_show_message(battle_messages, msg, animate_in, animate_out,
                delta_ms);
        },
        Action::RestoreBuddies { animate } => {
            go_shop = step_restore(units, animate, delta_ms);
        },
    }
    if let Some(a) = next_action {
        session.action = a;
    }
    go_shop
}

/// The first `n` arena entries with every right-side unit removed, order
/// kept.
pub open spec fn drop_right_prefix(s: Seq<Buddy>, n: int) -> Seq<Buddy>
    decreases n,
{
    if n <= 0 {
        Seq::empty()
    } else {
        let rest = drop_right_prefix(s, n - 1);
        if s[n - 1].side == Side::Right {
            rest
        } else {
            rest.push(s[n - 1])
        }
    }
}

/// The arena with every right-side unit removed, order kept.
pub open spec fn drop_right(s: Seq<Buddy>) -> Seq<Buddy> {
    drop_right_prefix(s, s.len() as int)
}

/// Removing right-side units changes no other side's counts.
proof fn lemma_drop_right_counts(s: Seq<Buddy>, n: int, side: Side)
    requires
        0 <= n <= s.len(),
        side != Side::Right,
    ensures
        count_alive(drop_right_prefix(s, n), side) == count_alive(s.take(n), side),
        count_side(drop_right_prefix(s, n), side) == count_side(s.take(n), side),
    decreases n,
{
    if n > 0 {
        lemma_drop_right_counts(s, n - 1, side);
        assert(s.take(n).drop_last() =~= s.take(n - 1));
        assert(s.take(n).last() == s[n - 1]);
        let rest = drop_right_prefix(s, n - 1);
        if s[n - 1].side != Side::Right {
            assert(rest.push(s[n - 1]).drop_last() =~= rest);
            assert(rest.push(s[n - 1]).last() == s[n - 1]);
        }
    }
}

/// A side that owns no unit has an alive count of zero.
proof fn lemma_count_alive_none(s: Seq<Buddy>, side: Side)
    requires
        forall|i: int| 0 <= i < s.len() ==> (#[trigger] s[i].side) != side,
    ensures
        count_alive(s, side) == 0,
    decreases s.len(),
{
    if s.len() > 0 {
        let t = s.drop_last();
        assert forall|i: int| 0 <= i < t.len() implies (#[trigger] t[i].side) != side by {
            assert(t[i] == s[i]);
        }
        assert(s.last().side != side);
        lemma_count_alive_none(t, side);
    }
}

/// Despawn the whole right-side roster, as happens at session entry and
/// exit, keeping everything else in order.
fn despawn_right(units: &mut Vec<Buddy>)
    requires
        units_wf(old(units)@),
    ensures
        final(units)@ == drop_right(old(units)@),
        units_wf(final(units)@),
        count_alive(final(units)@, Side::Left) == count_alive(old(units)@, Side::Left),
        count_side(final(units)@, Side::Left) == count_side(old(units)@, Side::Left),
        count_alive(final(units)@, Side::Right) == 0,
        forall|i: int| 0 <= i < final(units)@.len() ==> (#[trigger] final(units)@[i].side)
            != Side::Right,
        healths_displayable(old(units)@) ==> healths_displayable(final(units)@),
{
    let ghost pre = units@;
    let n = units.len();
    let mut kept: Vec<Buddy> = Vec::new();
    let ghost mut src: Seq<int> = Seq::empty();
    let mut i: usize = 0;
    while i < n
        invariant
            n == pre.len(),
            units@ == pre,
            i <= n,
            kept@ == drop_right_prefix(pre, i as int),
            src.len() == kept@.len(),
            forall|k: int|
                0 <= k < src.len() ==> 0 <= #[trigger] src[k] < i && kept@[k] == pre[src[k]]
                    && pre[src[k]].side != Side::Right,
            forall|k1: int, k2: int|
                0 <= k1 < k2 < src.len() ==> #[trigger] src[k1] < #[trigger] src[k2],
        decreases n - i,
    {
        let u = units[i];
        if !side_eq(u.side, Side::Right) {
            kept.push(u);
            proof {
                src = src.push(i as int);
            }
        }
        i = i + 1;
    }
    proof {
        assert(pre.take(n as int) =~= pre);
        lemma_drop_right_counts(pre, n as int, Side::Left);
        let post = kept@;
        assert forall|k: int| 0 <= k < post.len() implies (#[trigger] post[k].side)
            != Side::Right by {
            assert(post[k] == pre[src[k]]);
        }
        lemma_count_alive_none(post, Side::Right);
        assert forall|k: int| 0 <= k < post.len() implies unit_wf(#[trigger] post[k]) by {
            assert(post[k] == pre[src[k]]);
            assert(unit_wf(pre[src[k]]));
        }
        assert forall|k1: int, k2: int|
            0 <= k1 < post.len() && 0 <= k2 < post.len() && k1 != k2 && post[k1].alive
                && post[k2].alive && post[k1].side == Side::Left && post[k2].side
                == Side::Left implies #[trigger] post[k1].slot.current
            != #[trigger] post[k2].slot.current by {
            assert(post[k1] == pre[src[k1]] && post[k2] == pre[src[k2]]);
            if k1 < k2 {
                assert(src[k1] < src[k2]);
            } else {
                assert(src[k2] < src[k1]);
            }
            assert(pre[src[k1]].slot.current != pre[src[k2]].slot.current);
        }
        assert forall|k: int|
            0 <= k < post.len() && post[k].alive && #[trigger] post[k].side
                == Side::Left implies post[k].slot.current < count_alive(post, Side::Left) by {
            assert(post[k] == pre[src[k]]);
            assert(pre[src[k]].slot.current < count_alive(pre, Side::Left));
        }
        assert forall|k1: int, k2: int|
            0 <= k1 < post.len() && 0 <= k2 < post.len() && k1 != k2 && post[k1].side == Side::Left
                && post[k2].side == Side::Left implies #[trigger] post[k1].slot.base
            != #[trigger] post[k2].slot.base by {
            assert(post[k1] == pre[src[k1]] && post[k2] == pre[src[k2]]);
            if k1 < k2 {
                assert(src[k1] < src[k2]);
            } else {
                assert(src[k2] < src[k1]);
            }
            assert(pre[src[k1]].slot.base != pre[src[k2]].slot.base);
        }
        assert forall|k: int|
            0 <= k < post.len() && #[trigger] post[k].side == Side::Left implies post[k].slot.base
            < count_side(post, Side::Left) by {
            assert(post[k] == pre[src[k]]);
            assert(pre[src[k]].slot.base < count_side(pre, Side::Left));
        }
        assert forall|k: int|
            0 <= k < post.len() && #[trigger] post[k].alive && healths_displayable(
                pre,
            ) implies post[k].health.0.spec_current() >= 0 by {
            assert(post[k] == pre[src[k]]);
            assert(pre[src[k]].alive);
        }
    }
    *units = kept;
}

/// End the session: the right-side roster despawns; the rest is handed
/// back to the surrounding game untouched.
pub fn exit_battle(units: &mut Vec<Buddy>)
    requires
        units_wf(old(units)@),
    ensures
        final(units)@ == drop_right(old(units)@),
        units_wf(final(units)@),
{
    despawn_right(units);
}

/// Start a session: count the round, despawn the old opponent roster,
/// generate a fresh one scaled by the rounds fought, and reset the phase
/// to the opening pause.
pub fn enter_battle(session: &mut Battle, trophies: &mut Trophies, units: &mut Vec<Buddy>)
    requires
        units_wf(old(units)@),
        healths_displayable(old(units)@),
        old(trophies).rounds + 1 <= usize::MAX,
    ensures
        final(trophies).rounds == old(trophies).rounds + 1,
        final(trophies).won == old(trophies).won,
        battle_wf(*final(session), final(units)@),
        final(session).action matches Action::Begin { timer } && timer.duration() == BEGIN_MS
            && timer.elapsed() == 0 && !timer.is_repeating() && !timer.spec_just_finished(),
        final(units)@.len() == drop_right(old(units)@).len() + MAX_PER_SIDE,
        final(units)@.take(drop_right(old(units)@).len() as int) == drop_right(old(units)@),
        forall|k: int|
            0 <= k < MAX_PER_SIDE ==> {
                let u = #[trigger] final(units)@[drop_right(old(units)@).len() + k];
                &&& u.side == Side::Right && u.alive
                &&& u.slot.base == k && u.slot.current == k
                &&& 1 <= u.health.0.spec_base() <= STAT_ROLL_MAX
                &&& u.health.0.spec_current() == u.health.0.spec_base()
                &&& 1 <= u.strength.0.spec_base() <= STAT_ROLL_MAX
                &&& u.strength.0.spec_current() == u.strength.0.spec_base()
                &&& u.offset_x == 0 && u.scale_x == FIX_ONE && u.scale_y == FIX_ONE
            },
{
    trophies.rounds = trophies.rounds + 1;
    despawn_right(units);
    let ghost base = units@;
    let mut i: usize = 0;
    while i < MAX_PER_SIDE
        invariant
            i <= MAX_PER_SIDE,
            units@.len() == base.len() + i,
            forall|j: int| 0 <= j < base.len() ==> #[trigger] units@[j] == base[j],
            forall|j: int| 0 <= j < base.len() ==> (#[trigger] base[j].side) != Side::Right,
            units_wf(units@),
            healths_displayable(units@),
            count_alive(units@, Side::Right) == i,
            count_alive(units@, Side::Left) == count_alive(base, Side::Left),
            count_side(units@, Side::Left) == count_side(base, Side::Left),
            forall|k: int|
                0 <= k < i ==> {
                    let u = #[trigger] units@[base.len() + k];
                    &&& u.side == Side::Right && u.alive
                    &&& u.slot.base == k && u.slot.current == k
                    &&& 1 <= u.health.0.spec_base() <= STAT_ROLL_MAX
                    &&& u.health.0.spec_current() == u.health.0.spec_base()
                    &&& 1 <= u.strength.0.spec_base() <= STAT_ROLL_MAX
                    &&& u.strength.0.spec_current() == u.strength.0.spec_base()
                    &&& u.offset_x == 0 && u.scale_x == FIX_ONE && u.scale_y == FIX_ONE
                },
        decreases MAX_PER_SIDE - i,
    {
        let template = BuddyTemplate::random_for_round(trophies.rounds);
        proof {
            assert(STAT_ROLL_MAX <= isize::MAX as usize);
        }
        let b = template.spawn(i, Side::Right);
        let ghost before = units@;
        units.push(b);
        proof {
            let now = units@;
            assert(now.drop_last() =~= before);
            assert(now.last() == b);
            assert(count_alive(now, Side::Right) == count_alive(before, Side::Right) + 1);
            assert(count_alive(now, Side::Left) == count_alive(before, Side::Left));
            assert(count_side(now, Side::Left) == count_side(before, Side::Left));
            assert forall|j: int|
                base.len() <= j < before.len() implies (#[trigger] before[j]).side == Side::Right
                    && before[j].alive && before[j].slot.current == j - base.len() by {
                assert(before[base.len() + (j - base.len())] == before[j]);
            }
            assert forall|j: int|
                0 <= j < now.len() && (#[trigger] now[j]).side != Side::Right implies j
                < base.len() by {
                if j < before.len() {
                    assert(now[j] == before[j]);
                } else {
                    assert(now[j] == b);
                }
            }
            assert forall|j: int|
                0 <= j < now.len() && (#[trigger] now[j]).side == Side::Right implies j
                >= base.len() && now[j].alive && now[j].slot.current == j - base.len() by {
                if j < before.len() {
                    assert(now[j] == before[j]);
                } else {
                    assert(now[j] == b);
                }
            }
            assert forall|j: int| 0 <= j < now.len() implies unit_wf(#[trigger] now[j]) by {
                if j < before.len() {
                    assert(now[j] == before[j]);
                    assert(unit_wf(before[j]));
                }
            }
            assert forall|j1: int, j2: int|
                0 <= j1 < now.len() && 0 <= j2 < now.len() && j1 != j2 && now[j1].alive
                    && now[j2].alive && now[j1].side == Side::Right && now[j2].side
                    == Side::Right implies #[trigger] now[j1].slot.current
                != #[trigger] now[j2].slot.current by {
                assert(now[j1].side == Side::Right && now[j2].side == Side::Right);
            }
            assert forall|j: int|
                0 <= j < now.len() && now[j].alive && #[trigger] now[j].side
                    == Side::Right implies now[j].slot.current < count_alive(now, Side::Right) by {
                assert(now[j].side == Side::Right);
            }
            assert forall|j1: int, j2: int|
                0 <= j1 < now.len() && 0 <= j2 < now.len() && j1 != j2 && now[j1].alive
                    && now[j2].alive && now[j1].side == Side::Left && now[j2].side
                    == Side::Left implies #[trigger] now[j1].slot.current
                != #[trigger] now[j2].slot.current by {
                assert(now[j1].side != Side::Right && now[j2].side != Side::Right);
                assert(now[j1] == before[j1] && now[j2] == before[j2]);
                assert(before[j1].slot.current != before[j2].slot.current);
            }
            assert forall|j: int|
                0 <= j < now.len() && now[j].alive && #[trigger] now[j].side
                    == Side::Left implies now[j].slot.current < count_alive(now, Side::Left) by {
                assert(now[j].side != Side::Right);
                assert(now[j] == before[j]);
                assert(before[j].slot.current < count_alive(before, Side::Left));
            }
            assert forall|j1: int, j2: int|
                0 <= j1 < now.len() && 0 <= j2 < now.len() && j1 != j2 && now[j1].side
                    == Side::Left && now[j2].side == Side::Left implies #[trigger] now[j1].slot.base
                != #[trigger] now[j2].slot.base by {
                assert(now[j1].side != Side::Right && now[j2].side != Side::Right);
                assert(now[j1] == before[j1] && now[j2] == before[j2]);
                assert(before[j1].slot.base != before[j2].slot.base);
            }
            assert forall|j: int|
                0 <= j < now.len() && #[trigger] now[j].side == Side::Left implies now[j].slot.base
                < count_side(now, Side::Left) by {
                assert(now[j].side != Side::Right);
                assert(now[j] == before[j]);
                assert(before[j].slot.base < count_side(before, Side::Left));
            }
            assert forall|j: int|
                0 <= j < now.len() && #[trigger] now[j].alive implies now[j].health.0.spec_current()
                >= 0 by {
                if j < before.len() {
                    assert(now[j] == before[j]);
                    assert(before[j].alive);
                }
            }
        }
        i = i + 1;
    }
    proof {
        assert(units@.take(base.len() as int) =~= base);
    }
    session.action = Action::Begin { timer: Timer::new(BEGIN_MS, false) };
}

/// Whether a phase is the restore phase.
pub open spec fn is_restore(a: Action) -> bool {
    a matches Action::RestoreBuddies { .. }
}

/// Position `k` of a trace of per-tick phases is where the restore phase
/// was entered.
pub open spec fn restore_entry(trace: Seq<Action>, k: int) -> bool {
    &&& 0 <= k
    &&& k + 1 < trace.len()
    &&& !is_restore(trace[k])
    &&& is_restore(trace[k + 1])
}

/// Once a session's per-tick trace stands in the restore phase it stays
/// there: the phase graph has no edge out of it, so the machine cannot
/// leave the restore phase without an intervening session entry.
pub proof fn lemma_restore_absorbing(trace: Seq<Action>, i: int, j: int)
    requires
        forall|k: int| 0 <= k < trace.len() - 1 ==> phase_step(#[trigger] trace[k], trace[k + 1]),
        0 <= i <= j < trace.len(),
        is_restore(trace[i]),
    ensures
        is_restore(trace[j]),
    decreases j - i,
{
    if i < j {
        assert(phase_step(trace[i], trace[i + 1]));
        lemma_restore_absorbing(trace, i + 1, j);
    }
}

/// Within one session, the restore phase is visited at most once: a trace
/// of per-tick phases has at most one position where it is entered.
pub proof fn lemma_restore_entered_once(trace: Seq<Action>, i: int, j: int)
    requires
        forall|k: int| 0 <= k < trace.len() - 1 ==> phase_step(#[trigger] trace[k], trace[k + 1]),
        restore_entry(trace, i),
        restore_entry(trace, j),
    ensures
        i == j,
{
    if i < j {
        lemma_restore_absorbing(trace, i + 1, j);
    }
    if j < i {
        lemma_restore_absorbing(trace, j + 1, i);
    }
}

} // verus!

