//! Timed-component expiry: transient lifetimes, invulnerability windows
//! and the cooldown countdown through whole ticks.

use survival_core::abilities::request_cast;
use survival_core::abilities::CastOutcome;
use survival_core::components::Ability;
use survival_core::engine::advance;
use survival_core::engine::InputSnapshot;
use survival_core::math::Vec2i;
use survival_core::world::World;

fn v(x: i64, y: i64) -> Vec2i {
    Vec2i { x, y }
}

const NO_INPUT: InputSnapshot = InputSnapshot { cast: None };

/// The one entity holding a transient lifetime, if any.
fn find_transient(w: &World) -> Option<usize> {
    for i in 0..w.slot_count() {
        if w.lifetime_remaining(i).is_some() {
            return Some(i);
        }
    }
    None
}

#[test]
fn transient_lives_at_half_its_lifetime_and_dies_at_the_full_one() {
    let mut w = World::new();
    let p = w.spawn_player(v(0, 0)).unwrap();
    advance(&mut w, 10000, &NO_INPUT);
    assert_eq!(request_cast(&mut w, p, Ability::Ranged, v(500, 0), 0), CastOutcome::Accepted);
    // Commit the spawn without advancing time: the hitbox starts with
    // its full 100 ms lifetime.
    advance(&mut w, 0, &NO_INPUT);
    let h = find_transient(&w).unwrap();
    assert_eq!(w.lifetime_remaining(h), Some(100));
    // Present after 50 ms...
    advance(&mut w, 50, &NO_INPUT);
    assert!(w.is_alive(h));
    assert_eq!(w.lifetime_remaining(h), Some(50));
    // ...and despawned once the cumulative 100 ms have passed.
    advance(&mut w, 50, &NO_INPUT);
    assert!(!w.is_alive(h));
}

#[test]
fn transient_dies_when_overshooting_its_lifetime() {
    let mut w = World::new();
    let p = w.spawn_player(v(0, 0)).unwrap();
    advance(&mut w, 10000, &NO_INPUT);
    request_cast(&mut w, p, Ability::Ranged, v(500, 0), 0);
    advance(&mut w, 0, &NO_INPUT);
    let h = find_transient(&w).unwrap();
    advance(&mut w, 1000, &NO_INPUT);
    assert!(!w.is_alive(h));
}

#[test]
fn invulnerability_expires_but_the_entity_survives() {
    let mut w = World::new();
    let p = w.spawn_player(v(0, 0)).unwrap();
    advance(&mut w, 10000, &NO_INPUT);
    assert_eq!(request_cast(&mut w, p, Ability::Dash, v(50, 0), 0), CastOutcome::Accepted);
    assert_eq!(w.invuln_remaining(p), Some(1000));
    advance(&mut w, 400, &NO_INPUT);
    assert_eq!(w.invuln_remaining(p), Some(600));
    advance(&mut w, 600, &NO_INPUT);
    // The window is removed, not merely zeroed; the player lives on.
    assert_eq!(w.invuln_remaining(p), None);
    assert!(w.is_alive(p));
}

#[test]
fn cooldowns_run_down_through_ticks() {
    let mut w = World::new();
    let p = w.spawn_player(v(0, 0)).unwrap();
    advance(&mut w, 10000, &NO_INPUT);
    request_cast(&mut w, p, Ability::Ranged, v(500, 0), 0);
    assert_eq!(w.player_cooldown(Ability::Ranged), Some(3000));
    advance(&mut w, 1000, &NO_INPUT);
    assert_eq!(w.player_cooldown(Ability::Ranged), Some(2000));
    advance(&mut w, 5000, &NO_INPUT);
    assert_eq!(w.player_cooldown(Ability::Ranged), Some(0));
}

#[test]
fn the_clock_accumulates_delta_times() {
    let mut w = World::new();
    assert_eq!(w.get_elapsed_ms(), 0);
    advance(&mut w, 16, &NO_INPUT);
    advance(&mut w, 16, &NO_INPUT);
    advance(&mut w, 8, &NO_INPUT);
    assert_eq!(w.get_elapsed_ms(), 40);
}
