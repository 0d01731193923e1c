use buddy_battle::buddy::{Side, Slot};
use buddy_battle::pad::{
    pad_enter_battle, pad_exit_battle, position_pads, Pad, PadUnit, PAD_CENTER_OFFSET,
    PAD_SPACING, RIGHT_PAD_OUT, SIDE_SPACING,
};

fn pad_unit(side: Side, slot: usize) -> PadUnit {
    PadUnit { pad: Pad::default(), side, slot: Slot::new(slot).unwrap(), x: 0 }
}

#[test]
fn default_pads_rest_in_shop_positions() {
    // Out of battle, the completed exit sweeps hold: the left pads sit
    // centered, the right pads far out of view.
    let mut p = Pad::default();
    let x = p.position(false, Side::Left, &Slot::new(0).unwrap(), 0);
    assert_eq!(x, PAD_CENTER_OFFSET as i64);
    let mut p = Pad::default();
    let x = p.position(false, Side::Right, &Slot::new(0).unwrap(), 0);
    assert_eq!(x, RIGHT_PAD_OUT as i64);
    let mut p = Pad::default();
    let x = p.position(false, Side::Right, &Slot::new(2).unwrap(), 0);
    assert_eq!(x, (2 * PAD_SPACING + RIGHT_PAD_OUT) as i64);
}

#[test]
fn entering_battle_slides_the_pads() {
    let mut p = Pad::default();
    p.enter_battle(Side::Right);
    // The entry sweep starts far out and lands beside the ground.
    let start = p.position(true, Side::Right, &Slot::new(0).unwrap(), 0);
    assert_eq!(start, RIGHT_PAD_OUT as i64);
    let settled = p.position(true, Side::Right, &Slot::new(0).unwrap(), 2000);
    assert_eq!(settled, SIDE_SPACING as i64);

    let mut p = Pad::default();
    p.enter_battle(Side::Left);
    let settled = p.position(true, Side::Left, &Slot::new(0).unwrap(), 2000);
    assert_eq!(settled, -(SIDE_SPACING as i64));
    let mut p = Pad::default();
    p.enter_battle(Side::Left);
    let settled = p.position(true, Side::Left, &Slot::new(1).unwrap(), 2000);
    assert_eq!(settled, -((PAD_SPACING + SIDE_SPACING) as i64));
}

#[test]
fn exiting_battle_slides_the_pads_back() {
    let mut p = Pad::default();
    p.exit_battle(Side::Right);
    let settled = p.position(false, Side::Right, &Slot::new(0).unwrap(), 1500);
    assert_eq!(settled, RIGHT_PAD_OUT as i64);
    let mut p = Pad::default();
    p.exit_battle(Side::Left);
    let settled = p.position(false, Side::Left, &Slot::new(0).unwrap(), 1500);
    assert_eq!(settled, PAD_CENTER_OFFSET as i64);
}

#[test]
fn whole_rows_of_pads_position_together() {
    let mut pads = vec![
        pad_unit(Side::Left, 0),
        pad_unit(Side::Left, 1),
        pad_unit(Side::Right, 0),
        pad_unit(Side::Right, 1),
    ];
    pad_enter_battle(&mut pads);
    position_pads(&mut pads, true, 2000);
    assert_eq!(pads[0].x, -(SIDE_SPACING as i64));
    assert_eq!(pads[1].x, -((PAD_SPACING + SIDE_SPACING) as i64));
    assert_eq!(pads[2].x, SIDE_SPACING as i64);
    assert_eq!(pads[3].x, (PAD_SPACING + SIDE_SPACING) as i64);
    pad_exit_battle(&mut pads);
    position_pads(&mut pads, false, 1500);
    assert_eq!(pads[0].x, PAD_CENTER_OFFSET as i64);
    assert_eq!(pads[2].x, RIGHT_PAD_OUT as i64);
}
