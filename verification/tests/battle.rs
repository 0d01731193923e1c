use buddy_battle::animate::{Timer, FIX_ONE};
use buddy_battle::battle::{
    battle, enter_battle, exit_battle, Action, Banner, Battle, BattleMessages,
};
use buddy_battle::buddy::{Attribute, Buddy, Health, Side, Slot, Strength, SLOT_SENTINEL};
use buddy_battle::counters::{Coins, Trophies};

fn unit(side: Side, slot: usize, health: usize, strength: usize) -> Buddy {
    Buddy {
        side,
        slot: Slot::new(slot).unwrap(),
        alive: true,
        health: Health(Attribute::new(health)),
        strength: Strength(Attribute::new(strength)),
        offset_x: 0,
        scale_x: FIX_ONE,
        scale_y: FIX_ONE,
    }
}

fn session() -> Battle {
    Battle { action: Action::Begin { timer: Timer::new(2000, false) } }
}

#[test]
fn scenario_one_exchange_no_deaths() {
    // Left {strength 5, health 3} vs Right {strength 2, health 10}.
    let mut units = vec![unit(Side::Left, 0, 3, 5), unit(Side::Right, 0, 10, 2)];
    let mut state = session();
    let mut messages = BattleMessages::default();
    let mut trophies = Trophies { won: 0, rounds: 1 };
    let mut coins = Coins(0);

    // The opening pause runs out.
    battle(&mut state, &mut messages, &mut trophies, &mut coins, &mut units, 2000);
    assert!(matches!(state.action, Action::StartAttack));
    // The scan captures both front combatants.
    battle(&mut state, &mut messages, &mut trophies, &mut coins, &mut units, 0);
    assert!(matches!(state.action, Action::ExecuteAttack { .. }));
    // The lunge lands: damage applies on this tick.
    battle(&mut state, &mut messages, &mut trophies, &mut coins, &mut units, 300);
    assert_eq!(units[0].health.0.value(), 1);
    assert_eq!(units[1].health.0.value(), 5);
    match state.action {
        Action::ExecuteAttack { left_died, right_died, .. } => {
            assert!(!left_died);
            assert!(!right_died);
        },
        _ => panic!("expected the attack to still be resolving"),
    }
    // The lunge returns and hands over to the slide.
    battle(&mut state, &mut messages, &mut trophies, &mut coins, &mut units, 300);
    assert!(matches!(state.action, Action::Shift { .. }));
    // Nobody died, so the slide ends back at the attack scan.
    battle(&mut state, &mut messages, &mut trophies, &mut coins, &mut units, 1000);
    assert!(matches!(state.action, Action::StartAttack));
    assert!(units[0].alive && units[1].alive);
    assert_eq!(coins.0, 0);
    assert_eq!(trophies.won, 0);
    assert_eq!(trophies.rounds, 1);
}

#[test]
fn scenario_simultaneous_deaths_tie() {
    // Left {strength 10, health 1} vs Right {strength 1, health 1}.
    let mut units = vec![unit(Side::Left, 0, 1, 10), unit(Side::Right, 0, 1, 1)];
    let mut state = session();
    let mut messages = BattleMessages::default();
    let mut trophies = Trophies { won: 0, rounds: 1 };
    let mut coins = Coins(6);

    battle(&mut state, &mut messages, &mut trophies, &mut coins, &mut units, 2000);
    battle(&mut state, &mut messages, &mut trophies, &mut coins, &mut units, 0);
    battle(&mut state, &mut messages, &mut trophies, &mut coins, &mut units, 300);
    // Both fell to zero on the damage tick.
    assert_eq!(units[0].health.0.value(), 0);
    assert_eq!(units[1].health.0.value(), 0);
    battle(&mut state, &mut messages, &mut trophies, &mut coins, &mut units, 300);
    assert!(matches!(state.action, Action::Shift { .. }));
    // The slide completes: both shrink to scale zero and are marked dead.
    battle(&mut state, &mut messages, &mut trophies, &mut coins, &mut units, 1000);
    assert_eq!(units[0].scale_x, 0);
    assert_eq!(units[0].scale_y, 0);
    assert_eq!(units[1].scale_x, 0);
    assert_eq!(units[1].scale_y, 0);
    assert!(!units[0].alive && !units[1].alive);
    assert_eq!(units[0].slot.current, SLOT_SENTINEL);
    assert_eq!(units[1].slot.current, SLOT_SENTINEL);
    // Outcome: a tie pays three coins; the win tally is untouched.
    match state.action {
        Action::ShowMessage { message, .. } => {
            assert_eq!(message, buddy_battle::battle::BannerId::YouTie)
        },
        _ => panic!("expected the tie banner"),
    }
    assert_eq!(coins.0, 9);
    assert_eq!(trophies.won, 0);
    assert_eq!(trophies.rounds, 1);
}

#[test]
fn scenario_left_sweep_win_and_restore() {
    // The left roster survives whole; the right roster is eliminated.
    let mut units = vec![
        unit(Side::Left, 0, 10, 5),
        unit(Side::Left, 1, 4, 2),
        unit(Side::Right, 0, 2, 1),
    ];
    let mut state = session();
    let mut messages = BattleMessages::default();
    let mut trophies = Trophies { won: 0, rounds: 1 };
    let mut coins = Coins(0);

    battle(&mut state, &mut messages, &mut trophies, &mut coins, &mut units, 2000);
    battle(&mut state, &mut messages, &mut trophies, &mut coins, &mut units, 0);
    // Damage: left front takes 1, right front takes 5 and dies.
    battle(&mut state, &mut messages, &mut trophies, &mut coins, &mut units, 300);
    assert_eq!(units[0].health.0.value(), 9);
    assert_eq!(units[2].health.0.value(), 0);
    battle(&mut state, &mut messages, &mut trophies, &mut coins, &mut units, 300);
    // The slide completes: the right unit dies, the left side stands.
    battle(&mut state, &mut messages, &mut trophies, &mut coins, &mut units, 1000);
    match state.action {
        Action::ShowMessage { message, .. } => {
            assert_eq!(message, buddy_battle::battle::BannerId::YouWin)
        },
        _ => panic!("expected the win banner"),
    }
    // The win pays out exactly once.
    assert_eq!(trophies.won, 1);
    assert_eq!(coins.0, 5);
    assert!(!units[2].alive);

    // The banner enters at full scale, visible.
    battle(&mut state, &mut messages, &mut trophies, &mut coins, &mut units, 1000);
    assert!(messages.you_win.visible);
    assert_eq!(messages.you_win.scale_x, FIX_ONE as i64);
    assert!(!messages.you_lose.visible);
    // The banner leaves and hides.
    let go = battle(&mut state, &mut messages, &mut trophies, &mut coins, &mut units, 600);
    assert!(!go);
    assert!(!messages.you_win.visible);
    assert!(matches!(state.action, Action::RestoreBuddies { .. }));

    // The restore delay runs out: the left roster is reset, the shop
    // transition is requested exactly once.
    let before_health = 10;
    units[0].health.0.remove(3);
    let go = battle(&mut state, &mut messages, &mut trophies, &mut coins, &mut units, 500);
    assert!(go);
    assert!(units[0].alive && units[1].alive);
    assert_eq!(units[0].health.0.value(), before_health);
    assert_eq!(units[1].health.0.value(), 4);
    assert_eq!(units[0].slot.current, 0);
    assert_eq!(units[1].slot.current, 1);
    assert_eq!(units[0].scale_x, FIX_ONE);
    assert_eq!(units[0].offset_x, 0);
    // The ledger was paid exactly once.
    assert_eq!(trophies.won, 1);
    assert_eq!(coins.0, 5);

    // Further ticks stay in the restore phase and never request the shop
    // again: the machine cannot revisit the restore phase in one session.
    for _ in 0..5 {
        let go = battle(&mut state, &mut messages, &mut trophies, &mut coins, &mut units, 500);
        assert!(!go);
        assert!(matches!(state.action, Action::RestoreBuddies { .. }));
    }
    assert_eq!(trophies.won, 1);
    assert_eq!(coins.0, 5);
}

#[test]
fn attack_scan_stalls_without_a_front_unit() {
    // A degenerate arena with no right-side unit: the scan stalls in
    // place, tick after tick.
    let mut units = vec![unit(Side::Left, 0, 3, 5)];
    let mut state = Battle { action: Action::StartAttack };
    let mut messages = BattleMessages::default();
    let mut trophies = Trophies { won: 0, rounds: 1 };
    let mut coins = Coins(0);
    for _ in 0..3 {
        battle(&mut state, &mut messages, &mut trophies, &mut coins, &mut units, 500);
        assert!(matches!(state.action, Action::StartAttack));
    }
}

#[test]
fn session_entry_replaces_the_right_roster() {
    let mut units = vec![
        unit(Side::Left, 0, 3, 5),
        unit(Side::Right, 0, 1, 1),
        unit(Side::Right, 1, 2, 2),
    ];
    let mut state = Battle::default();
    let mut trophies = Trophies { won: 2, rounds: 4 };
    enter_battle(&mut state, &mut trophies, &mut units);
    assert_eq!(trophies.rounds, 5);
    assert_eq!(trophies.won, 2);
    // One left unit kept, three fresh opponents, one per slot.
    assert_eq!(units.len(), 4);
    assert!(matches!(units[0].side, Side::Left));
    for (k, u) in units[1..].iter().enumerate() {
        assert!(matches!(u.side, Side::Right));
        assert!(u.alive);
        assert_eq!(u.slot.current, k);
        assert!(u.health.0.value() >= 1 && u.health.0.value() <= 6);
        assert!(u.strength.0.value() >= 1 && u.strength.0.value() <= 6);
    }
    match &state.action {
        Action::Begin { .. } => {},
        _ => panic!("expected the opening pause"),
    }
}

#[test]
fn session_exit_despawns_the_right_roster() {
    let mut units = vec![
        unit(Side::Right, 0, 1, 1),
        unit(Side::Left, 0, 3, 5),
        unit(Side::Right, 1, 2, 2),
        unit(Side::Left, 1, 4, 1),
    ];
    exit_battle(&mut units);
    assert_eq!(units.len(), 2);
    assert!(matches!(units[0].side, Side::Left));
    assert!(matches!(units[1].side, Side::Left));
    assert_eq!(units[0].slot.current, 0);
    assert_eq!(units[1].slot.current, 1);
}

#[test]
fn full_session_reaches_the_shop_request() {
    // Play a whole generated session to its end: entry, battle loop,
    // banner, restore, shop request.
    let mut units = vec![unit(Side::Left, 0, 50, 9), unit(Side::Left, 1, 30, 4)];
    let mut state = Battle::default();
    let mut messages = BattleMessages::default();
    let mut trophies = Trophies { won: 0, rounds: 0 };
    let mut coins = Coins(0);
    enter_battle(&mut state, &mut trophies, &mut units);
    assert_eq!(trophies.rounds, 1);
    let mut reached_shop = false;
    for _ in 0..200 {
        if battle(&mut state, &mut messages, &mut trophies, &mut coins, &mut units, 100) {
            reached_shop = true;
            break;
        }
    }
    assert!(reached_shop);
    assert!(coins.0 > 0);
}

#[test]
fn banner_defaults_are_hidden() {
    let b = Banner::default();
    assert!(!b.visible);
    assert_eq!(b.scale_x, 0);
    let m = BattleMessages::default();
    assert!(!m.you_win.visible && !m.you_lose.visible && !m.you_tie.visible);
}

#[test]
fn battle_default_waits_in_the_opening_phase() {
    let mut state = Battle::default();
    let mut units: Vec<Buddy> = Vec::new();
    let mut messages = BattleMessages::default();
    let mut trophies = Trophies { won: 0, rounds: 0 };
    let mut coins = Coins(0);
    // A default session's zero-length timer was already complete when it
    // was built, so it never reports just-finished and the phase holds.
    battle(&mut state, &mut messages, &mut trophies, &mut coins, &mut units, 1000);
    assert!(matches!(state.action, Action::Begin { .. }));
}
