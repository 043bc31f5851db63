//! The world-streaming controller: the 3 by 3 resident window.

use survival_core::engine::advance;
use survival_core::engine::InputSnapshot;
use survival_core::math::Vec2i;
use survival_core::streaming::count_tiles;
use survival_core::streaming::has_resident_tile;
use survival_core::streaming::TILE_HEIGHT;
use survival_core::streaming::TILE_WIDTH;
use survival_core::world::World;

fn v(x: i64, y: i64) -> Vec2i {
    Vec2i { x, y }
}

const NO_INPUT: InputSnapshot = InputSnapshot { cast: None };

#[test]
fn one_tick_makes_the_neighborhood_of_the_origin_resident() {
    let mut w = World::new();
    w.spawn_player(v(0, 0)).unwrap();
    assert_eq!(count_tiles(&w), 0);
    advance(&mut w, 10, &NO_INPUT);
    assert_eq!(count_tiles(&w), 9);
    for gx in -1..=1 {
        for gy in -1..=1 {
            assert!(has_resident_tile(&w, gx, gy));
        }
    }
    assert!(!has_resident_tile(&w, 2, 0));
    assert!(!has_resident_tile(&w, 0, -2));
}

#[test]
fn moving_the_player_replaces_the_window_without_stale_tiles() {
    let mut w = World::new();
    let p = w.spawn_player(v(0, 0)).unwrap();
    advance(&mut w, 10, &NO_INPUT);
    assert_eq!(count_tiles(&w), 9);
    // Jump to tile (5, 5).
    w.set_transform(p, v(5 * TILE_WIDTH, 5 * TILE_HEIGHT));
    advance(&mut w, 10, &NO_INPUT);
    assert_eq!(count_tiles(&w), 9);
    for gx in 4..=6 {
        for gy in 4..=6 {
            assert!(has_resident_tile(&w, gx, gy));
        }
    }
    assert!(!has_resident_tile(&w, 0, 0));
    assert!(!has_resident_tile(&w, 1, 1));
}

#[test]
fn streaming_is_idempotent_within_a_tile() {
    let mut w = World::new();
    let p = w.spawn_player(v(0, 0)).unwrap();
    advance(&mut w, 10, &NO_INPUT);
    let tiles = count_tiles(&w);
    let slots = w.slot_count();
    // Wander inside tile (0, 0): nothing is spawned or despawned.
    w.set_transform(p, v(100, -200));
    advance(&mut w, 10, &NO_INPUT);
    assert_eq!(count_tiles(&w), tiles);
    assert_eq!(w.slot_count(), slots);
}

#[test]
fn tile_coordinate_rounds_half_away_from_zero() {
    let mut w = World::new();
    // Halfway across tile (0, 0) on the x axis: the coordinate rounds to
    // tile (1, 0), so the window is centered there.
    w.spawn_player(v(TILE_WIDTH / 2, 0)).unwrap();
    advance(&mut w, 10, &NO_INPUT);
    assert!(has_resident_tile(&w, 2, 0));
    assert!(has_resident_tile(&w, 0, 0));
    assert!(!has_resident_tile(&w, -1, 0));
}

#[test]
fn no_player_means_no_streaming() {
    let mut w = World::new();
    advance(&mut w, 10, &NO_INPUT);
    assert_eq!(count_tiles(&w), 0);
}

#[test]
fn adjacent_crossing_keeps_the_shared_tiles() {
    let mut w = World::new();
    let p = w.spawn_player(v(0, 0)).unwrap();
    advance(&mut w, 10, &NO_INPUT);
    // One tile to the right: the shared six tiles stay, three new appear,
    // three old go.
    w.set_transform(p, v(TILE_WIDTH, 0));
    advance(&mut w, 10, &NO_INPUT);
    assert_eq!(count_tiles(&w), 9);
    for gx in 0..=2 {
        for gy in -1..=1 {
            assert!(has_resident_tile(&w, gx, gy));
        }
    }
    assert!(!has_resident_tile(&w, -1, 0));
}
