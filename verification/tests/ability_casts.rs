//! The ability cast engine: sampling, rejection, dash relocation.

use survival_core::abilities::request_cast;
use survival_core::abilities::CastOutcome;
use survival_core::components::Ability;
use survival_core::engine::advance;
use survival_core::engine::InputSnapshot;
use survival_core::math::Vec2i;
use survival_core::world::World;

fn v(x: i64, y: i64) -> Vec2i {
    Vec2i { x, y }
}

const NO_INPUT: InputSnapshot = InputSnapshot { cast: None };

#[test]
fn melee_sampling_is_deterministic() {
    // Two separate worlds, identical casts: identical point sets.
    let mut points = Vec::new();
    for _ in 0..2 {
        let mut w = World::new();
        let p = w.spawn_player(v(0, 0)).unwrap();
        advance(&mut w, 10000, &NO_INPUT);
        let r = request_cast(&mut w, p, Ability::Attack, v(0, 0), 0);
        assert_eq!(r, CastOutcome::Accepted);
        points.push(w.last_cast_points().clone());
    }
    assert_eq!(points[0].len(), 550);
    assert_eq!(points[0], points[1]);
}

#[test]
fn melee_sample_grid_exact_values() {
    let mut w = World::new();
    let p = w.spawn_player(v(0, 0)).unwrap();
    advance(&mut w, 10000, &NO_INPUT);
    request_cast(&mut w, p, Ability::Attack, v(0, 0), 0);
    let pts = w.last_cast_points();
    // 25 rings of 22 samples each.
    assert_eq!(pts.len(), 550);
    // First sample: radius 10, a quarter-arc-half below aim angle 0.
    assert_eq!((pts[0].x, pts[0].y), (7, -7));
    // Outermost ring, radius 250.
    assert_eq!((pts[528].x, pts[528].y), (176, -176));
    assert_eq!((pts[535].x, pts[535].y), (240, -68));
    assert_eq!((pts[542].x, pts[542].y), (243, 57));
}

#[test]
fn aoe_sample_count() {
    let mut w = World::new();
    let p = w.spawn_player(v(0, 0)).unwrap();
    advance(&mut w, 10000, &NO_INPUT);
    let r = request_cast(&mut w, p, Ability::Aoe, v(0, 0), 0);
    assert_eq!(r, CastOutcome::Accepted);
    // 31 rings (radius 0 through 300) of 87 samples each.
    assert_eq!(w.last_cast_points().len(), 31 * 87);
}

#[test]
fn dash_relocates_and_grants_invulnerability() {
    let mut w = World::new();
    let p = w.spawn_player(v(0, 0)).unwrap();
    advance(&mut w, 10000, &NO_INPUT);
    let r = request_cast(&mut w, p, Ability::Dash, v(300, 400), 0);
    assert_eq!(r, CastOutcome::Accepted);
    // The actor now stands exactly at the aim point...
    assert_eq!(w.position_of(p), Some(v(300, 400)));
    // ...with the full dash invulnerability window...
    assert_eq!(w.invuln_remaining(p), Some(1000));
    // ...and the dash back on its full cooldown.
    assert_eq!(w.player_cooldown(Ability::Dash), Some(5000));
    // The point buffer records the dashed stretch.
    let pts = w.last_cast_points();
    assert_eq!(pts.len(), 2);
    assert_eq!((pts[0].x, pts[0].y), (0, 0));
    assert_eq!((pts[1].x, pts[1].y), (300, 400));
}

#[test]
fn cast_on_cooldown_is_rejected_without_state_change() {
    let mut w = World::new();
    let p = w.spawn_player(v(0, 0)).unwrap();
    advance(&mut w, 10000, &NO_INPUT);
    assert_eq!(request_cast(&mut w, p, Ability::Dash, v(100, 0), 0), CastOutcome::Accepted);
    let score = w.get_score();
    let slots = w.slot_count();
    let pos = w.position_of(p);
    // Still cooling down: rejected, nothing moves, nothing spawns.
    assert_eq!(request_cast(&mut w, p, Ability::Dash, v(700, 0), 0), CastOutcome::NotReady);
    assert_eq!(w.position_of(p), pos);
    assert_eq!(w.slot_count(), slots);
    assert_eq!(w.get_score(), score);
}

#[test]
fn cast_without_actor_is_rejected() {
    let mut w = World::new();
    assert_eq!(request_cast(&mut w, 7, Ability::Attack, v(0, 0), 0), CastOutcome::NoActor);
    let p = w.spawn_player(v(0, 0)).unwrap();
    advance(&mut w, 10000, &NO_INPUT);
    let e = w.spawn_enemy(v(500, 0), 10, 10);
    // An enemy carries no cooldown ledger, so it cannot cast.
    assert_eq!(request_cast(&mut w, e, Ability::Attack, v(0, 0), 0), CastOutcome::NoActor);
    assert_eq!(request_cast(&mut w, p, Ability::Attack, v(0, 0), 0), CastOutcome::Accepted);
}

#[test]
fn ability_can_be_recast_after_its_cooldown() {
    let mut w = World::new();
    let p = w.spawn_player(v(0, 0)).unwrap();
    advance(&mut w, 10000, &NO_INPUT);
    assert_eq!(request_cast(&mut w, p, Ability::Attack, v(0, 0), 0), CastOutcome::Accepted);
    advance(&mut w, 999, &NO_INPUT);
    assert_eq!(request_cast(&mut w, p, Ability::Attack, v(0, 0), 0), CastOutcome::NotReady);
    advance(&mut w, 1, &NO_INPUT);
    assert_eq!(request_cast(&mut w, p, Ability::Attack, v(0, 0), 0), CastOutcome::Accepted);
}

#[test]
fn ranged_cast_spawns_one_line_hitbox_at_the_apply_point() {
    let mut w = World::new();
    let p = w.spawn_player(v(1000, 0)).unwrap();
    advance(&mut w, 10000, &NO_INPUT);
    let before = w.slot_count();
    assert_eq!(request_cast(&mut w, p, Ability::Ranged, v(0, 0), 0), CastOutcome::Accepted);
    // The spawn is buffered until the tick's deferred-apply point.
    assert_eq!(w.slot_count(), before);
    advance(&mut w, 0, &NO_INPUT);
    let mut lines = 0;
    for i in 0..w.slot_count() {
        if w.lifetime_remaining(i).is_some() {
            lines += 1;
            assert_eq!(w.lifetime_remaining(i), Some(100));
        }
    }
    assert_eq!(lines, 1);
}

#[test]
fn cast_through_the_tick_input() {
    let mut w = World::new();
    let p = w.spawn_player(v(0, 0)).unwrap();
    advance(&mut w, 10000, &NO_INPUT);
    let input = InputSnapshot {
        cast: Some(survival_core::engine::CastCommand {
            actor: p,
            ability: Ability::Aoe,
            aim: v(0, 0),
            aim_angle: 0,
        }),
    };
    let report = advance(&mut w, 10, &input);
    assert_eq!(report.cast, Some(CastOutcome::Accepted));
    assert_eq!(w.last_cast_points().len(), 31 * 87);
    let report2 = advance(&mut w, 10, &input);
    assert_eq!(report2.cast, Some(CastOutcome::NotReady));
}
