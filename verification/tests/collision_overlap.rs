//! The strict axis-aligned overlap test.

use survival_core::combat::boxes_overlap;
use survival_core::components::Collider;
use survival_core::math::Vec2i;

fn v(x: i64, y: i64) -> Vec2i {
    Vec2i { x, y }
}

#[test]
fn identical_boxes_overlap() {
    let c = Collider::new(10, 10);
    assert!(boxes_overlap(v(5, 5), &c, v(5, 5), &c));
}

#[test]
fn overlap_is_symmetric() {
    let a = Collider::new(10, 4);
    let b = Collider::new(6, 20);
    let cases = [
        (v(0, 0), v(3, 3)),
        (v(0, 0), v(100, 0)),
        (v(-5, 2), v(2, -5)),
        (v(0, 0), v(7, 11)),
    ];
    for (pa, pb) in cases {
        assert_eq!(boxes_overlap(pa, &a, pb, &b), boxes_overlap(pb, &b, pa, &a));
    }
}

#[test]
fn zero_area_boxes_never_overlap() {
    let degenerate = Collider::new(0, 10);
    let flat = Collider::new(10, 0);
    let fat = Collider::new(100, 100);
    assert!(!boxes_overlap(v(0, 0), &degenerate, v(0, 0), &fat));
    assert!(!boxes_overlap(v(0, 0), &fat, v(0, 0), &degenerate));
    assert!(!boxes_overlap(v(0, 0), &flat, v(0, 0), &fat));
    assert!(!boxes_overlap(v(0, 0), &degenerate, v(0, 0), &degenerate));
}

#[test]
fn touching_edges_do_not_overlap() {
    // Boxes of width 10 centered 10 apart share exactly one edge; the
    // interval overlap is strict, so they do not collide.
    let c = Collider::new(10, 10);
    assert!(!boxes_overlap(v(0, 0), &c, v(10, 0), &c));
    assert!(boxes_overlap(v(0, 0), &c, v(9, 0), &c));
}

#[test]
fn separated_boxes_do_not_overlap() {
    let c = Collider::new(10, 10);
    assert!(!boxes_overlap(v(0, 0), &c, v(11, 0), &c));
    assert!(!boxes_overlap(v(0, 0), &c, v(0, 11), &c));
    assert!(!boxes_overlap(v(0, 0), &c, v(500, 500), &c));
}

#[test]
fn odd_sizes_are_exact() {
    // Width 5 around 0 spans [-2.5, 2.5]; width 4 around 4 spans [2, 6]:
    // they overlap by half a unit, which the doubled-coordinate test sees.
    let a = Collider::new(5, 5);
    let b = Collider::new(4, 4);
    assert!(boxes_overlap(v(0, 0), &a, v(4, 0), &b));
    assert!(!boxes_overlap(v(0, 0), &a, v(5, 0), &b));
}
