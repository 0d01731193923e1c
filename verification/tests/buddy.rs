use buddy_battle::animate::FIX_ONE;
use buddy_battle::buddy::{
    Attribute, BuddyBlink, BuddyColor, BuddyFace, BuddyTemplate, Side, Slot, SlotError,
    MAX_PER_SIDE, STAT_ROLL_MAX,
};

#[test]
fn slot_new_accepts_valid_indices() {
    for i in 0..MAX_PER_SIDE {
        let s = Slot::new(i).unwrap();
        assert_eq!(s.base, i);
        assert_eq!(s.current, i);
    }
}

#[test]
fn slot_new_rejects_out_of_range_indices() {
    assert_eq!(Slot::new(3), Err(SlotError::InvalidSlot));
    assert_eq!(Slot::new(4), Err(SlotError::InvalidSlot));
    assert_eq!(Slot::new(usize::MAX), Err(SlotError::InvalidSlot));
}

#[test]
fn slot_reset_returns_to_base() {
    let mut s = Slot::new(2).unwrap();
    s.current = 0;
    s.reset();
    assert_eq!(s.current, 2);
    assert_eq!(s.base, 2);
}

#[test]
fn attribute_value_never_negative() {
    let mut a = Attribute::new(3);
    assert_eq!(a.value(), 3);
    a.remove(5);
    // Driven negative internally, displayed as zero.
    assert_eq!(a.value(), 0);
    a.remove(100);
    assert_eq!(a.value(), 0);
}

#[test]
fn attribute_reset_restores_base_exactly() {
    let mut a = Attribute::new(7);
    a.remove(20);
    assert_eq!(a.value(), 0);
    a.reset();
    assert_eq!(a.value(), 7);
    a.add(5);
    assert_eq!(a.value(), 12);
    a.reset();
    assert_eq!(a.value(), 7);
}

#[test]
fn attribute_set_base_changes_reset_target() {
    let mut a = Attribute::new(2);
    a.set_base(9);
    assert_eq!(a.value(), 2);
    a.reset();
    assert_eq!(a.value(), 9);
}

#[test]
fn face_paths() {
    assert_eq!(BuddyFace::Happy.get_path(), "buddy/face/happy.png");
    assert_eq!(BuddyFace::Neutral.get_path(), "buddy/face/neutral.png");
}

#[test]
fn face_random_is_a_face() {
    for _ in 0..20 {
        let f = BuddyFace::random();
        assert!(f == BuddyFace::Happy || f == BuddyFace::Neutral);
    }
}

#[test]
fn color_random_is_one_of_the_three() {
    for _ in 0..20 {
        let c = BuddyColor::random();
        assert!(c == BuddyColor::red() || c == BuddyColor::green() || c == BuddyColor::blue());
    }
}

#[test]
fn blink_phases_flip_deterministically_at_their_bounds() {
    // A blinking phase lasts under 200 ms: one long tick always ends it,
    // flipping to the open-eyed phase.
    let mut b = BuddyBlink::new(true);
    assert!(!b.blink(200));
    // An open-eyed phase lasts at least 10 s: a short tick cannot end it.
    let mut b = BuddyBlink::new(false);
    assert!(!b.blink(9_999));
    // And one tick of the full upper bound always ends it.
    let mut b = BuddyBlink::new(false);
    assert!(b.blink(20_000));
}

#[test]
fn template_round_zero_has_unit_stats() {
    // At round zero the stat roll admits exactly one value, so this also
    // pins down that the random draw really lands below its bound.
    for _ in 0..10 {
        let t = BuddyTemplate::random_for_round(0);
        assert_eq!(t.health, 1);
        assert_eq!(t.strength, 1);
    }
}

#[test]
fn template_stats_scale_with_round() {
    for round in [1usize, 5, 100] {
        let t = BuddyTemplate::random_for_round(round);
        assert!(1 <= t.health && t.health <= round + 1);
        assert!(1 <= t.strength && t.strength <= round + 1);
    }
    let t = BuddyTemplate::random_for_round(usize::MAX);
    assert!(t.health <= STAT_ROLL_MAX);
    assert!(t.strength <= STAT_ROLL_MAX);
}

#[test]
fn template_spawn_places_the_unit() {
    let t = BuddyTemplate {
        face: BuddyFace::Happy,
        color: BuddyColor::blue(),
        health: 4,
        strength: 2,
    };
    let b = t.spawn(1, Side::Right);
    assert!(matches!(b.side, Side::Right));
    assert!(b.alive);
    assert_eq!(b.slot.base, 1);
    assert_eq!(b.slot.current, 1);
    assert_eq!(b.health.0.value(), 4);
    assert_eq!(b.strength.0.value(), 2);
    assert_eq!(b.offset_x, 0);
    assert_eq!(b.scale_x, FIX_ONE);
    assert_eq!(b.scale_y, FIX_ONE);
}

#[test]
fn side_default_is_left() {
    assert_eq!(Side::default(), Side::Left);
}
