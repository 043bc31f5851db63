//! The entity store: spawning, singletons, handles and components.

use survival_core::boss::spawn_bigfoot;
use survival_core::components::Ability;
use survival_core::components::Collider;
use survival_core::components::Health;
use survival_core::components::Velocity;
use survival_core::math::Vec2i;
use survival_core::world::World;

fn v(x: i64, y: i64) -> Vec2i {
    Vec2i { x, y }
}

#[test]
fn the_player_is_a_singleton() {
    let mut w = World::new();
    assert!(w.spawn_player(v(0, 0)).is_some());
    assert!(w.spawn_player(v(100, 100)).is_none());
}

#[test]
fn the_boss_is_a_singleton() {
    let mut w = World::new();
    assert!(spawn_bigfoot(&mut w, v(0, 0)).is_some());
    assert!(spawn_bigfoot(&mut w, v(100, 100)).is_none());
}

#[test]
fn a_fresh_player_has_its_starting_loadout() {
    let mut w = World::new();
    let p = w.spawn_player(v(10, 20)).unwrap();
    assert_eq!(w.position_of(p), Some(v(10, 20)));
    assert_eq!(w.health_of(p), Some(500));
    assert_eq!(w.invuln_remaining(p), None);
    // Every ability starts on its full base cooldown.
    assert_eq!(w.player_cooldown(Ability::Dash), Some(5000));
    assert_eq!(w.player_cooldown(Ability::Attack), Some(1000));
    assert_eq!(w.player_cooldown(Ability::Ranged), Some(3000));
    assert_eq!(w.player_cooldown(Ability::Aoe), Some(10000));
}

#[test]
fn set_transform_moves_a_live_entity_and_ignores_stale_handles() {
    let mut w = World::new();
    let p = w.spawn_player(v(0, 0)).unwrap();
    w.set_transform(p, v(123, -456));
    assert_eq!(w.position_of(p), Some(v(123, -456)));
    // A handle past the arena is a no-op, per the missing-singleton rule.
    w.set_transform(999, v(1, 1));
    assert_eq!(w.slot_count(), 1);
}

#[test]
fn set_velocity_stores_the_direction_for_the_mover() {
    let mut w = World::new();
    let p = w.spawn_player(v(0, 0)).unwrap();
    w.set_velocity(p, Velocity { x: 3, y: -4 });
    assert!(w.is_alive(p));
}

#[test]
fn take_damage_saturates_below() {
    let mut h = Health { hp: 100 };
    h.take_damage(30);
    assert_eq!(h.hp, 70);
    h.take_damage(200);
    assert_eq!(h.hp, -130);
    let mut low = Health { hp: i32::MIN + 5 };
    low.take_damage(100);
    assert_eq!(low.hp, i32::MIN);
}

#[test]
fn collider_keeps_its_extents() {
    let c = Collider::new(225, 1100);
    assert_eq!(c.width, 225);
    assert_eq!(c.height, 1100);
}

#[test]
fn stale_handles_read_as_absent() {
    let w = World::new();
    assert!(!w.is_alive(0));
    assert_eq!(w.position_of(0), None);
    assert_eq!(w.health_of(3), None);
    assert_eq!(w.lifetime_remaining(9), None);
}
