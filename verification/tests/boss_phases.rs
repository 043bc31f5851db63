//! The boss phase state machine: the strike, the radius, the relocation.

use survival_core::abilities::request_cast;
use survival_core::abilities::CastOutcome;
use survival_core::boss::spawn_bigfoot;
use survival_core::components::Ability;
use survival_core::components::BossState;
use survival_core::engine::advance;
use survival_core::engine::InputSnapshot;
use survival_core::math::Vec2i;
use survival_core::world::World;

fn v(x: i64, y: i64) -> Vec2i {
    Vec2i { x, y }
}

const NO_INPUT: InputSnapshot = InputSnapshot { cast: None };

#[test]
fn strike_hits_a_player_inside_the_radius_on_the_transition_tick() {
    let mut w = World::new();
    let p = w.spawn_player(v(100, 0)).unwrap();
    spawn_bigfoot(&mut w, v(0, 0)).unwrap();
    // One tick short of the invulnerable phase: nothing happens yet.
    advance(&mut w, 2499, &NO_INPUT);
    assert_eq!(w.player_health(), Some(500));
    assert_eq!(w.boss_state(), Some(BossState::Invulnerable));
    // The transition tick: the strike lands exactly once, for 500, which
    // empties the player's 500 hit points; the cleanup pass despawns it.
    advance(&mut w, 1, &NO_INPUT);
    assert_eq!(w.boss_state(), Some(BossState::Solid));
    assert!(!w.is_alive(p));
}

#[test]
fn strike_misses_a_player_outside_the_radius() {
    let mut w = World::new();
    let p = w.spawn_player(v(500, 0)).unwrap();
    spawn_bigfoot(&mut w, v(0, 0)).unwrap();
    advance(&mut w, 2500, &NO_INPUT);
    assert_eq!(w.boss_state(), Some(BossState::Solid));
    assert_eq!(w.player_health(), Some(500));
    assert!(w.is_alive(p));
}

#[test]
fn strike_lands_at_the_exact_radius_boundary() {
    // 175 units away is still inside; 176 is outside.
    let mut w = World::new();
    let p = w.spawn_player(v(175, 0)).unwrap();
    spawn_bigfoot(&mut w, v(0, 0)).unwrap();
    advance(&mut w, 2500, &NO_INPUT);
    assert!(!w.is_alive(p));

    let mut w2 = World::new();
    let p2 = w2.spawn_player(v(176, 0)).unwrap();
    spawn_bigfoot(&mut w2, v(0, 0)).unwrap();
    advance(&mut w2, 2500, &NO_INPUT);
    assert!(w2.is_alive(p2));
    assert_eq!(w2.player_health(), Some(500));
}

#[test]
fn no_strike_repeats_during_the_solid_phase() {
    let mut w = World::new();
    let p = w.spawn_player(v(500, 0)).unwrap();
    spawn_bigfoot(&mut w, v(0, 0)).unwrap();
    advance(&mut w, 2500, &NO_INPUT);
    assert_eq!(w.boss_state(), Some(BossState::Solid));
    // Step inside the strike radius mid-phase: the strike fires only on
    // the transition tick, so nothing happens now.
    w.set_transform(p, v(50, 0));
    advance(&mut w, 1000, &NO_INPUT);
    advance(&mut w, 1000, &NO_INPUT);
    assert_eq!(w.player_health(), Some(500));
    assert_eq!(w.boss_state(), Some(BossState::Solid));
}

#[test]
fn invulnerability_window_blocks_the_strike() {
    let mut w = World::new();
    let p = w.spawn_player(v(100, 0)).unwrap();
    advance(&mut w, 10000, &NO_INPUT);
    spawn_bigfoot(&mut w, v(0, 0)).unwrap();
    advance(&mut w, 2000, &NO_INPUT);
    // Dash in place right before the transition: the 1000 ms window is
    // still open when the strike fires 500 ms later.
    assert_eq!(request_cast(&mut w, p, Ability::Dash, v(100, 0), 0), CastOutcome::Accepted);
    advance(&mut w, 500, &NO_INPUT);
    assert_eq!(w.boss_state(), Some(BossState::Solid));
    assert!(w.is_alive(p));
    assert_eq!(w.player_health(), Some(500));
}

#[test]
fn boss_relocates_to_the_player_when_the_solid_phase_ends() {
    let mut w = World::new();
    let p = w.spawn_player(v(500, 0)).unwrap();
    let b = spawn_bigfoot(&mut w, v(0, 0)).unwrap();
    advance(&mut w, 2500, &NO_INPUT);
    w.set_transform(p, v(700, 300));
    // Let the 5000 ms solid phase run out: the boss re-anchors on the
    // player and turns invulnerable again.
    advance(&mut w, 5000, &NO_INPUT);
    assert_eq!(w.boss_state(), Some(BossState::Invulnerable));
    assert_eq!(w.position_of(b), Some(v(700, 300)));
}

#[test]
fn boss_cycle_repeats() {
    let mut w = World::new();
    let p = w.spawn_player(v(500, 0)).unwrap();
    spawn_bigfoot(&mut w, v(0, 0)).unwrap();
    advance(&mut w, 2500, &NO_INPUT);
    advance(&mut w, 5000, &NO_INPUT);
    // Second cycle: the boss now sits on the player's old spot; move the
    // player out of range and cross the next transition.
    assert_eq!(w.boss_state(), Some(BossState::Invulnerable));
    w.set_transform(p, v(2000, 0));
    advance(&mut w, 2500, &NO_INPUT);
    assert_eq!(w.boss_state(), Some(BossState::Solid));
    assert_eq!(w.player_health(), Some(500));
}

#[test]
fn solid_phase_waits_for_a_player() {
    // With no live player the Solid phase's expiry is skipped (the
    // missing-singleton rule): there is nobody to re-anchor on, so the
    // boss stays solid, its countdown spent, until a reset intervenes.
    let mut w = World::new();
    spawn_bigfoot(&mut w, v(0, 0)).unwrap();
    advance(&mut w, 2500, &NO_INPUT);
    assert_eq!(w.boss_state(), Some(BossState::Solid));
    advance(&mut w, 5000, &NO_INPUT);
    assert_eq!(w.boss_state(), Some(BossState::Solid));
    advance(&mut w, 2500, &NO_INPUT);
    assert_eq!(w.boss_state(), Some(BossState::Solid));
}
