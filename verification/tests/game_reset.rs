//! The game reset: resettables cleared, counters zeroed, boss and grid
//! re-seeded.

use survival_core::abilities::request_cast;
use survival_core::abilities::CastOutcome;
use survival_core::boss::spawn_bigfoot;
use survival_core::components::Ability;
use survival_core::components::BossState;
use survival_core::engine::advance;
use survival_core::engine::reset_game;
use survival_core::engine::InputSnapshot;
use survival_core::math::Vec2i;
use survival_core::streaming::count_tiles;
use survival_core::world::World;

fn v(x: i64, y: i64) -> Vec2i {
    Vec2i { x, y }
}

const NO_INPUT: InputSnapshot = InputSnapshot { cast: None };

#[test]
fn reset_clears_resettables_and_counters_and_reseeds() {
    let mut w = World::new();
    let p = w.spawn_player(v(0, 0)).unwrap();
    advance(&mut w, 10000, &NO_INPUT);
    let b = spawn_bigfoot(&mut w, v(10000, 0)).unwrap();
    assert_eq!(request_cast(&mut w, p, Ability::Attack, v(0, 0), 0), CastOutcome::Accepted);
    advance(&mut w, 0, &NO_INPUT);
    let kill_target = w.spawn_enemy(w.last_cast_points()[528], 4, 4);
    let survivor = w.spawn_enemy(v(5000, 5000), 20, 20);
    advance(&mut w, 10, &NO_INPUT);
    assert_eq!(w.get_score(), 1);
    assert!(!w.is_alive(kill_target));
    assert!(w.is_alive(survivor));
    assert_eq!(count_tiles(&w), 9);

    reset_game(&mut w);
    // Score and clock restart.
    assert_eq!(w.get_score(), 0);
    assert_eq!(w.get_elapsed_ms(), 0);
    // Resettable entities (enemies, leftover hitboxes) and all tiles go.
    assert!(!w.is_alive(survivor));
    assert_eq!(count_tiles(&w), 0);
    assert_eq!(w.last_cast_points().len(), 0);
    // The player survives with a ready ledger.
    assert!(w.is_alive(p));
    assert_eq!(w.player_cooldown(Ability::Attack), Some(0));
    assert_eq!(w.player_cooldown(Ability::Dash), Some(0));
    // The boss is re-seeded at the player: invulnerable, full timer,
    // full hit points.
    assert!(w.is_alive(b));
    assert_eq!(w.boss_state(), Some(BossState::Invulnerable));
    assert_eq!(w.boss_hp(), Some(5));
    assert_eq!(w.position_of(b), Some(v(0, 0)));
}

#[test]
fn reset_spawns_a_boss_when_none_lives() {
    let mut w = World::new();
    w.spawn_player(v(300, 400)).unwrap();
    assert_eq!(w.boss_state(), None);
    reset_game(&mut w);
    assert_eq!(w.boss_state(), Some(BossState::Invulnerable));
    assert_eq!(w.boss_hp(), Some(5));
}

#[test]
fn reset_of_an_empty_world_is_harmless() {
    let mut w = World::new();
    reset_game(&mut w);
    assert_eq!(w.get_score(), 0);
    assert_eq!(w.slot_count(), 0);
    assert_eq!(w.boss_state(), None);
}

#[test]
fn streaming_recovers_after_a_reset() {
    let mut w = World::new();
    w.spawn_player(v(0, 0)).unwrap();
    advance(&mut w, 10, &NO_INPUT);
    reset_game(&mut w);
    assert_eq!(count_tiles(&w), 0);
    advance(&mut w, 10, &NO_INPUT);
    assert_eq!(count_tiles(&w), 9);
}
