//! The per-unit model: roster sides, ordered slot positions, the
//! base/current attribute pair behind health and strength, cosmetic unit
//! traits, and the template an opponent roster is generated from.

use crate::animate::{timer_ticked, Timer, FIX_ONE};
use rand::Rng;
use vstd::prelude::*;

verus! {

/// Number of ordered positions each side of the battle ground offers.
pub const MAX_PER_SIDE: usize = 3;

/// Slot value carried by a unit that is no longer alive: outside the valid
/// range, so the unit can never be picked as a front combatant again.
pub const SLOT_SENTINEL: usize = 10;

/// Which roster a unit belongs to. `Shop` units exist in the surrounding
/// game but take no part in battle resolution.
#[derive(Copy, Clone, Debug, PartialEq, Eq, Structural)]
pub enum Side {
    Left,
    Right,
    Shop,
}

impl Default for Side {
    fn default() -> (s: Side)
        ensures
            s == Side::Left,
    {
        Side::Left
    }
}

/// The one way constructing a slot can fail: an index at or past
/// `MAX_PER_SIDE`.
#[derive(Copy, Clone, Debug, PartialEq, Eq, Structural)]
pub enum SlotError {
    InvalidSlot,
}

/// An ordered position on one side of the battle ground. `base` is the
/// position the unit returns to when the roster is restored; `current` is
/// where it stands now.
#[derive(Copy, Clone, Debug, PartialEq, Eq, Structural)]
pub struct Slot {
    pub base: usize,
    pub current: usize,
}

impl Slot {
    /// A slot at `index`, which must lie below `MAX_PER_SIDE`.
    pub fn new(index: usize) -> (r: Result<Slot, SlotError>)
        ensures
            index < MAX_PER_SIDE <==> r is Ok,
            r matches Ok(s) ==> s.base == index && s.current == index,
            r is Err ==> r == Err::<Slot, SlotError>(SlotError::InvalidSlot),
    {
        if index >= MAX_PER_SIDE {
            Err(SlotError::InvalidSlot)
        } else {
            Ok(Slot { base: index, current: index })
        }
    }

    /// Return the unit to its base position.
    pub fn reset(&mut self)
        ensures
            final(self).current == old(self).base,
            final(self).base == old(self).base,
    {
        self.current = self.base;
    }
}

impl Default for Slot {
    fn default() -> (s: Slot)
        ensures
            s.base == 0 && s.current == 0,
    {
        Slot { base: 0, current: 0 }
    }
}

/// A base/current numeric pair with floor-at-zero display semantics: the
/// current value may be driven negative (to detect overkill) but is never
/// displayed negative.
#[derive(Copy, Clone)]
pub struct Attribute {
    base: usize,
    value: isize,
}

impl Attribute {
    /// The value the attribute returns to on `reset`.
    pub closed spec fn spec_base(self) -> int {
        self.base as int
    }

    /// The current value, which may be negative.
    pub closed spec fn spec_current(self) -> int {
        self.value as int
    }

    /// The displayed value: the current value floored at zero.
    pub open spec fn spec_value(self) -> int {
        if self.spec_current() >= 0 {
            self.spec_current()
        } else {
            0
        }
    }

    pub fn new(base: usize) -> (a: Attribute)
        requires
            base <= isize::MAX as usize,
        ensures
            a.spec_base() == base,
            a.spec_current() == base,
    {
        Attribute { base, value: base as isize }
    }

    pub fn set_base(&mut self, base: usize)
        ensures
            final(self).spec_base() == base,
            final(self).spec_current() == old(self).spec_current(),
    {
        self.base = base;
    }

    /// Set the current value back to the base value.
    pub fn reset(&mut self)
        requires
            old(self).spec_base() <= isize::MAX as usize,
        ensures
            final(self).spec_base() == old(self).spec_base(),
            final(self).spec_current() == old(self).spec_base(),
    {
        self.value = self.base as isize;
    }

    /// The displayed value: never negative, and exactly the current value
    /// whenever that is non-negative.
    pub fn value(&self) -> (v: usize)
        ensures
            v == self.spec_value(),
            v >= 0,
    {
        if self.value >= 0 {
            self.value as usize
        } else {
            0
        }
    }

    /// Lower the current value, possibly below zero.
    pub fn remove(&mut self, amount: usize)
        requires
            amount <= isize::MAX as usize,
            old(self).spec_current() - amount >= isize::MIN,
        ensures
            final(self).spec_base() == old(self).spec_base(),
            final(self).spec_current() == old(self).spec_current() - amount,
    {
        self.value = self.value - amount as isize;
    }

    /// Raise the current value.
    pub fn add(&mut self, amount: usize)
        requires
            amount <= isize::MAX as usize,
            old(self).spec_current() + amount <= isize::MAX,
        ensures
            final(self).spec_base() == old(self).spec_base(),
            final(self).spec_current() == old(self).spec_current() + amount,
    {
        self.value = self.value + amount as isize;
    }
}

/// The displayed value of an attribute is never negative, however far
/// `remove` drove the current value down; and an attribute whose current
/// value stands at its base, as after a `reset`, displays the base value
/// exactly.
pub proof fn lemma_attribute_display(a: Attribute)
    ensures
        a.spec_value() >= 0,
        a.spec_current() == a.spec_base() ==> a.spec_value() == a.spec_base(),
{
}

/// A unit's health.
#[derive(Copy, Clone)]
pub struct Health(pub Attribute);

impl Default for Health {
    fn default() -> (h: Health)
        ensures
            h.0.spec_base() == 1,
            h.0.spec_current() == 1,
    {
        Health(Attribute::new(1))
    }
}

/// A unit's strength: how much health its attacks remove.
#[derive(Copy, Clone)]
pub struct Strength(pub Attribute);

impl Default for Strength {
    fn default() -> (s: Strength)
        ensures
            s.0.spec_base() == 1,
            s.0.spec_current() == 1,
    {
        Strength(Attribute::new(1))
    }
}

/// One unit record in the battle arena: roster side, position, liveness,
/// combat attributes, and the cosmetic outputs the battle writes each tick
/// (a horizontal offset and a scale, both in `FIX_ONE` scale).
#[derive(Copy, Clone)]
pub struct Buddy {
    pub side: Side,
    pub slot: Slot,
    pub alive: bool,
    pub health: Health,
    pub strength: Strength,
    pub offset_x: i64,
    pub scale_x: u64,
    pub scale_y: u64,
}

/// A unit's facial expression.
#[derive(Copy, Clone, Debug, PartialEq, Eq, Structural)]
pub enum BuddyFace {
    Happy,
    Neutral,
}

impl BuddyFace {
    /// The sprite sheet path of this face.
    pub fn get_path(&self) -> (r: &'static str)
        ensures
            *self == BuddyFace::Happy ==> r@ == "buddy/face/happy.png"@,
            *self == BuddyFace::Neutral ==> r@ == "buddy/face/neutral.png"@,
    {
        match self {
            BuddyFace::Happy => "buddy/face/happy.png",
            BuddyFace::Neutral => "buddy/face/neutral.png",
        }
    }

    /// A face drawn at random.
    pub fn random() -> (f: BuddyFace) {
        let index = rand_below(2);
        match index {
            0 => BuddyFace::Happy,
            _ => BuddyFace::Neutral,
        }
    }
}

impl Default for BuddyFace {
    fn default() -> (f: BuddyFace)
        ensures
            f == BuddyFace::Happy,
    {
        BuddyFace::Happy
    }
}

/// A unit's body tint, as red/green/blue hundredths.
#[derive(Copy, Clone, Debug, PartialEq, Eq, Structural)]
pub struct BuddyColor {
    pub red: u8,
    pub green: u8,
    pub blue: u8,
}

impl BuddyColor {
    pub fn red() -> (c: BuddyColor)
        ensures
            c == (BuddyColor { red: 67, green: 53, blue: 53 }),
    {
        BuddyColor { red: 67, green: 53, blue: 53 }
    }

    pub fn green() -> (c: BuddyColor)
        ensures
            c == (BuddyColor { red: 53, green: 67, blue: 53 }),
    {
        BuddyColor { red: 53, green: 67, blue: 53 }
    }

    pub fn blue() -> (c: BuddyColor)
        ensures
            c == (BuddyColor { red: 53, green: 53, blue: 67 }),
    {
        BuddyColor { red: 53, green: 53, blue: 67 }
    }

    /// One of the three body tints, drawn at random.
    pub fn random() -> (c: BuddyColor)
        ensures
            c == (BuddyColor { red: 67, green: 53, blue: 53 }) || c == (BuddyColor {
                red: 53,
                green: 67,
                blue: 53,
            }) || c == (BuddyColor { red: 53, green: 53, blue: 67 }),
    {
        let index = rand_below(3);
        match index {
            0 => BuddyColor::red(),
            1 => BuddyColor::green(),
            _ => BuddyColor::blue(),
        }
    }
}

impl Default for BuddyColor {
    fn default() -> (c: BuddyColor)
        ensures
            c == (BuddyColor { red: 67, green: 53, blue: 53 }),
    {
        BuddyColor::red()
    }
}

/// Relies on `rand::Rng::gen_range` over `0..n`: yields a value drawn below
/// `n`; it panics only on an empty range, which the precondition rules out.
#[verifier::external_body]
fn rand_below(n: usize) -> (r: usize)
    requires
        1 <= n,
    ensures
        r < n,
{
    rand::thread_rng().gen_range(0..n)
}

/// Shortest wait before a blink starts, in milliseconds.
pub const BLINK_WAIT_MIN_MS: u64 = 10000;

/// The wait before a blink is below this bound, in milliseconds.
pub const BLINK_WAIT_MAX_MS: u64 = 20000;

/// Shortest time the eyes stay shut, in milliseconds.
pub const BLINK_HOLD_MIN_MS: u64 = 50;

/// The eyes stay shut for less than this bound, in milliseconds.
pub const BLINK_HOLD_MAX_MS: u64 = 200;

/// Cosmetic blink state: a unit waits a long random time with open eyes,
/// then holds them shut for a short random time, and starts over.
pub struct BuddyBlink {
    timer: Timer,
    is_blinking: bool,
}

impl BuddyBlink {
    pub closed spec fn timer(self) -> Timer {
        self.timer
    }

    pub closed spec fn spec_is_blinking(self) -> bool {
        self.is_blinking
    }

    /// The phase's timer duration stays within the bounds of that phase.
    pub open spec fn inv(self) -> bool {
        &&& self.timer().inv()
        &&& !self.timer().is_repeating()
        &&& if self.spec_is_blinking() {
            BLINK_HOLD_MIN_MS <= self.timer().duration() < BLINK_HOLD_MAX_MS
        } else {
            BLINK_WAIT_MIN_MS <= self.timer().duration() < BLINK_WAIT_MAX_MS
        }
    }

    /// A fresh blink phase with a random duration in the phase's range.
    pub fn new(is_blinking: bool) -> (b: BuddyBlink)
        ensures
            b.inv(),
            b.spec_is_blinking() == is_blinking,
            b.timer().elapsed() == 0,
    {
        let ms: u64 = if is_blinking {
            BLINK_HOLD_MIN_MS + rand_below((BLINK_HOLD_MAX_MS - BLINK_HOLD_MIN_MS) as usize) as u64
        } else {
            BLINK_WAIT_MIN_MS + rand_below((BLINK_WAIT_MAX_MS - BLINK_WAIT_MIN_MS) as usize) as u64
        };
        BuddyBlink { timer: Timer::new(ms, false), is_blinking }
    }

    /// Advance the blink clock; when the current phase runs out, flip to a
    /// fresh phase of the other kind. Yields whether the eyes are shut now.
    pub fn blink(&mut self, delta_ms: u64) -> (r: bool)
        requires
            old(self).inv(),
        ensures
            final(self).inv(),
            r == final(self).spec_is_blinking(),
            (old(self).timer().elapsed() < old(self).timer().duration() && old(
                self,
            ).timer().elapsed() + delta_ms >= old(self).timer().duration()) ==> {
                &&& final(self).spec_is_blinking() == !old(self).spec_is_blinking()
                &&& final(self).timer().elapsed() == 0
            },
            !(old(self).timer().elapsed() < old(self).timer().duration() && old(
                self,
            ).timer().elapsed() + delta_ms >= old(self).timer().duration()) ==> {
                &&& final(self).spec_is_blinking() == old(self).spec_is_blinking()
                &&& timer_ticked(old(self).timer(), final(self).timer(), delta_ms as int)
            },
    {
        self.timer.tick(delta_ms);
        if self.timer.just_finished() {
            *self = BuddyBlink::new(!self.is_blinking);
        }
        self.is_blinking
    }
}

impl Default for BuddyBlink {
    fn default() -> (b: BuddyBlink)
        ensures
            b.inv(),
            !b.spec_is_blinking(),
            b.timer().elapsed() == 0,
    {
        BuddyBlink::new(false)
    }
}

/// What the external roster generator supplies for one opponent unit:
/// cosmetics and base health and strength.
pub struct BuddyTemplate {
    pub face: BuddyFace,
    pub color: BuddyColor,
    pub health: usize,
    pub strength: usize,
}

/// Cap on randomly generated base stats, so they stay far within every
/// machine bound.
pub const STAT_ROLL_MAX: usize = 1000;

impl BuddyTemplate {
    /// A random template whose stats scale with the round being fought:
    /// each base stat is drawn from 1 up to one more than the round count,
    /// capped at `STAT_ROLL_MAX`.
    pub fn random_for_round(round: usize) -> (t: BuddyTemplate)
        ensures
            1 <= t.health <= STAT_ROLL_MAX,
            1 <= t.strength <= STAT_ROLL_MAX,
            t.health <= round + 1,
            t.strength <= round + 1,
    {
        let cap: usize = if round >= STAT_ROLL_MAX {
            STAT_ROLL_MAX - 1
        } else {
            round
        };
        let health = 1 + rand_below(cap + 1);
        let strength = 1 + rand_below(cap + 1);
        BuddyTemplate { face: BuddyFace::random(), color: BuddyColor::random(), health, strength }
    }

    /// Build the unit this template describes, standing alive at `index` on
    /// `side`, at its spawn scale and with no offset.
    pub fn spawn(&self, index: usize, side: Side) -> (b: Buddy)
        requires
            index < MAX_PER_SIDE,
            self.health <= isize::MAX as usize,
            self.strength <= isize::MAX as usize,
        ensures
            b.side == side,
            b.slot.base == index && b.slot.current == index,
            b.alive,
            b.health.0.spec_base() == self.health,
            b.health.0.spec_current() == self.health,
            b.strength.0.spec_base() == self.strength,
            b.strength.0.spec_current() == self.strength,
            b.offset_x == 0,
            b.scale_x == FIX_ONE && b.scale_y == FIX_ONE,
    {
        let slot = match Slot::new(index) {
            Ok(s) => s,
            Err(_) => unreached(),
        };
        Buddy {
            side,
            slot,
            alive: true,
            health: Health(Attribute::new(self.health)),
            strength: Strength(Attribute::new(self.strength)),
            offset_x: 0,
            scale_x: FIX_ONE,
            scale_y: FIX_ONE,
        }
    }
}

/// The base of an attribute is an unsigned count, so it is never
/// negative.
pub proof fn lemma_attr_base_nonneg(a: Attribute)
    ensures
        a.spec_base() >= 0,
{
}

/// `post` is `pre` with `amount` removed from the current value.
pub open spec fn attr_damaged(pre: Attribute, post: Attribute, amount: int) -> bool {
    &&& post.spec_base() == pre.spec_base()
    &&& post.spec_current() == pre.spec_current() - amount
}

/// `post` is `pre` reset to its base value.
pub open spec fn attr_reset(pre: Attribute, post: Attribute) -> bool {
    &&& post.spec_base() == pre.spec_base()
    &&& post.spec_current() == pre.spec_base()
}

} // verus!

