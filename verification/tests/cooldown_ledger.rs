//! The cooldown ledger: readiness, reset, ticking and the kill reward.

use survival_core::components::Ability;
use survival_core::components::Cooldowns;

#[test]
fn fresh_ledger_starts_on_full_cooldown() {
    // A newly spawned actor must wait out each base duration once; only
    // a game reset makes the ledger ready outright.
    let c = Cooldowns::new();
    assert!(!c.is_ready(Ability::Dash));
    assert!(!c.is_ready(Ability::Attack));
    assert!(!c.is_ready(Ability::Ranged));
    assert!(!c.is_ready(Ability::Aoe));
    assert_eq!(c.get_cooldown(Ability::Dash), 5000);
    assert_eq!(c.get_cooldown(Ability::Attack), 1000);
    assert_eq!(c.get_cooldown(Ability::Ranged), 3000);
    assert_eq!(c.get_cooldown(Ability::Aoe), 10000);
}

#[test]
fn reset_then_ready_after_exact_base_duration() {
    // For every ability: right after a reset the ability is not ready,
    // one tick short of the base duration it is still not ready, and at
    // exactly the base duration it is ready again.
    let cases = [
        (Ability::Dash, 5000u32),
        (Ability::Attack, 1000u32),
        (Ability::Ranged, 3000u32),
        (Ability::Aoe, 10000u32),
    ];
    for (ability, base) in cases {
        let mut c = Cooldowns::new();
        c.reset(ability);
        assert!(!c.is_ready(ability));
        assert_eq!(c.get_cooldown(ability), base);
        c.tick(base - 1);
        assert!(!c.is_ready(ability));
        assert_eq!(c.get_cooldown(ability), 1);
        c.tick(1);
        assert!(c.is_ready(ability));
    }
}

#[test]
fn base_duration_splits_into_any_ticks() {
    let mut c = Cooldowns::new();
    c.reset(Ability::Ranged);
    c.tick(1000);
    c.tick(1000);
    assert!(!c.is_ready(Ability::Ranged));
    c.tick(1000);
    assert!(c.is_ready(Ability::Ranged));
}

#[test]
fn tick_clamps_at_zero() {
    let mut c = Cooldowns::new();
    c.reset(Ability::Attack);
    c.tick(999_999);
    assert_eq!(c.get_cooldown(Ability::Attack), 0);
    assert!(c.is_ready(Ability::Attack));
}

#[test]
fn reduce_shortens_only_the_named_ability() {
    let mut c = Cooldowns::new();
    c.reset(Ability::Dash);
    c.reset(Ability::Aoe);
    c.reduce(Ability::Dash, 1200);
    assert_eq!(c.get_cooldown(Ability::Dash), 3800);
    assert_eq!(c.get_cooldown(Ability::Aoe), 10000);
    c.reduce(Ability::Dash, 999_999);
    assert_eq!(c.get_cooldown(Ability::Dash), 0);
}

#[test]
fn reset_all_makes_everything_ready() {
    let mut c = Cooldowns::new();
    c.reset(Ability::Dash);
    c.reset(Ability::Attack);
    c.reset_all();
    assert!(c.is_ready(Ability::Dash));
    assert!(c.is_ready(Ability::Attack));
    assert!(c.is_ready(Ability::Ranged));
    assert!(c.is_ready(Ability::Aoe));
}
