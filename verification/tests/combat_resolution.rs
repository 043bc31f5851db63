//! The combat resolver: multi-kills, the score, contact damage,
//! invulnerability, and hits on the boss.

use survival_core::abilities::request_cast;
use survival_core::abilities::CastOutcome;
use survival_core::boss::spawn_bigfoot;
use survival_core::components::Ability;
use survival_core::components::BossState;
use survival_core::engine::advance;
use survival_core::engine::InputSnapshot;
use survival_core::math::Vec2i;
use survival_core::world::World;

fn v(x: i64, y: i64) -> Vec2i {
    Vec2i { x, y }
}

const NO_INPUT: InputSnapshot = InputSnapshot { cast: None };

#[test]
fn one_cast_kills_three_distinct_enemies_and_scores_three() {
    let mut w = World::new();
    let p = w.spawn_player(v(0, 0)).unwrap();
    advance(&mut w, 10000, &NO_INPUT);
    assert_eq!(request_cast(&mut w, p, Ability::Attack, v(0, 0), 0), CastOutcome::Accepted);
    // Commit the buffered point markers.
    advance(&mut w, 0, &NO_INPUT);
    // Three well-separated outermost samples; a 4 by 4 enemy at each
    // overlaps exactly its own marker.
    let pts = w.last_cast_points().clone();
    let targets = [pts[528], pts[535], pts[542]];
    let mut enemies = Vec::new();
    for t in targets {
        enemies.push(w.spawn_enemy(t, 4, 4));
    }
    let report = advance(&mut w, 10, &NO_INPUT);
    assert_eq!(report.hits, 3);
    assert_eq!(w.get_score(), 3);
    for e in enemies {
        assert!(!w.is_alive(e));
    }
    // The player is untouched: the markers sit well outside its box.
    assert_eq!(w.player_health(), Some(500));
}

#[test]
fn no_overlap_leaves_score_unchanged() {
    let mut w = World::new();
    let p = w.spawn_player(v(0, 0)).unwrap();
    advance(&mut w, 10000, &NO_INPUT);
    assert_eq!(request_cast(&mut w, p, Ability::Attack, v(0, 0), 0), CastOutcome::Accepted);
    advance(&mut w, 0, &NO_INPUT);
    let e = w.spawn_enemy(v(5000, 5000), 20, 20);
    let report = advance(&mut w, 10, &NO_INPUT);
    assert_eq!(report.hits, 0);
    assert_eq!(w.get_score(), 0);
    assert!(w.is_alive(e));
}

#[test]
fn kills_refund_cooldown_time() {
    let mut w = World::new();
    let p = w.spawn_player(v(0, 0)).unwrap();
    advance(&mut w, 10000, &NO_INPUT);
    assert_eq!(request_cast(&mut w, p, Ability::Attack, v(0, 0), 0), CastOutcome::Accepted);
    advance(&mut w, 0, &NO_INPUT);
    let pts = w.last_cast_points().clone();
    w.spawn_enemy(pts[528], 4, 4);
    // After the 10 ms tick the attack cooldown would read 990; the one
    // kill refunds another 50 ms.
    advance(&mut w, 10, &NO_INPUT);
    assert_eq!(w.player_cooldown(Ability::Attack), Some(940));
}

#[test]
fn enemy_contact_damages_the_player() {
    let mut w = World::new();
    let p = w.spawn_player(v(0, 0)).unwrap();
    // Player box is 112 wide; an enemy 50 units away with a 20-wide box
    // overlaps it.
    w.spawn_enemy(v(50, 0), 20, 20);
    advance(&mut w, 10, &NO_INPUT);
    assert_eq!(w.player_health(), Some(400));
    advance(&mut w, 10, &NO_INPUT);
    assert_eq!(w.player_health(), Some(300));
    assert!(w.is_alive(p));
}

#[test]
fn two_touching_enemies_deal_double_contact_damage() {
    let mut w = World::new();
    w.spawn_player(v(0, 0)).unwrap();
    w.spawn_enemy(v(50, 0), 20, 20);
    w.spawn_enemy(v(-50, 0), 20, 20);
    advance(&mut w, 10, &NO_INPUT);
    assert_eq!(w.player_health(), Some(300));
}

#[test]
fn invulnerability_blocks_contact_damage() {
    let mut w = World::new();
    let p = w.spawn_player(v(0, 0)).unwrap();
    advance(&mut w, 10000, &NO_INPUT);
    w.spawn_enemy(v(50, 0), 20, 20);
    // Dash in place: the window opens before the resolver runs.
    assert_eq!(request_cast(&mut w, p, Ability::Dash, v(0, 0), 0), CastOutcome::Accepted);
    advance(&mut w, 10, &NO_INPUT);
    assert_eq!(w.player_health(), Some(500));
}

#[test]
fn solid_boss_absorbs_line_hits_without_scoring() {
    let mut w = World::new();
    let p = w.spawn_player(v(1000, 0)).unwrap();
    advance(&mut w, 10000, &NO_INPUT);
    let b = spawn_bigfoot(&mut w, v(0, 0)).unwrap();
    // Let the invulnerable phase run out: the boss turns solid (the
    // player stands far outside the strike radius).
    advance(&mut w, 2500, &NO_INPUT);
    assert_eq!(w.boss_state(), Some(BossState::Solid));
    // A ranged line toward the boss covers its box.
    assert_eq!(request_cast(&mut w, p, Ability::Ranged, v(0, 0), 0), CastOutcome::Accepted);
    advance(&mut w, 10, &NO_INPUT);
    advance(&mut w, 10, &NO_INPUT);
    assert_eq!(w.boss_hp(), Some(4));
    assert_eq!(w.boss_state(), Some(BossState::Solid));
    // Hits on the boss are not kills: the score stays put.
    assert_eq!(w.get_score(), 0);
    assert!(w.is_alive(b));
}

#[test]
fn invulnerable_boss_is_exempt_from_hits() {
    let mut w = World::new();
    let p = w.spawn_player(v(1000, 0)).unwrap();
    advance(&mut w, 10000, &NO_INPUT);
    spawn_bigfoot(&mut w, v(0, 0)).unwrap();
    assert_eq!(w.boss_state(), Some(BossState::Invulnerable));
    assert_eq!(request_cast(&mut w, p, Ability::Ranged, v(0, 0), 0), CastOutcome::Accepted);
    advance(&mut w, 10, &NO_INPUT);
    advance(&mut w, 10, &NO_INPUT);
    assert_eq!(w.boss_hp(), Some(5));
}

#[test]
fn spent_boss_enters_cleanup() {
    let mut w = World::new();
    let p = w.spawn_player(v(250, 0)).unwrap();
    advance(&mut w, 10000, &NO_INPUT);
    let b = spawn_bigfoot(&mut w, v(0, 0)).unwrap();
    // The player stands outside the strike radius, so the phase flip to
    // solid costs it nothing.
    advance(&mut w, 2500, &NO_INPUT);
    assert_eq!(w.boss_state(), Some(BossState::Solid));
    // A melee arc aimed at the boss (half a turn, 31416 angle ticks)
    // lands hundreds of point markers on its box in a single tick: far
    // more hits than the boss's five hit points.
    assert_eq!(request_cast(&mut w, p, Ability::Attack, v(0, 0), 31416), CastOutcome::Accepted);
    advance(&mut w, 0, &NO_INPUT);
    advance(&mut w, 10, &NO_INPUT);
    assert!(w.boss_hp().unwrap() <= 0);
    assert_eq!(w.boss_state(), Some(BossState::Cleanup));
    // The spent boss stays in the world, inert, until the next reset.
    assert!(w.is_alive(b));
    // Hits on the boss are not kills.
    assert_eq!(w.get_score(), 0);
}

#[test]
fn hits_and_contact_are_judged_against_the_tick_entry_set() {
    // An enemy touching the player is overlapped by 22 of the melee
    // point markers in the same tick.  Every (hitbox, enemy) pair counts
    // as a hit, and the contact damage still lands, because the whole
    // tick is judged against the entity set as it stood when the
    // resolver began -- the kill does not retroactively spare the player.
    let mut w = World::new();
    let p = w.spawn_player(v(0, 0)).unwrap();
    advance(&mut w, 10000, &NO_INPUT);
    assert_eq!(request_cast(&mut w, p, Ability::Attack, v(0, 0), 0), CastOutcome::Accepted);
    advance(&mut w, 0, &NO_INPUT);
    let e = w.spawn_enemy(v(50, 0), 20, 20);
    let report = advance(&mut w, 10, &NO_INPUT);
    assert_eq!(report.hits, 22);
    assert_eq!(w.get_score(), 22);
    assert!(!w.is_alive(e));
    assert_eq!(w.player_health(), Some(400));
}
