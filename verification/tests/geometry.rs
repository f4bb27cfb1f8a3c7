//! Geometry primitives: unit conversions, radius tests, rectangles and
//! triangles.

use circuit_edit::math::{Rectangle, Triangle, Vec2f, Vec2i, within_radius};

#[test]
fn grid_to_fine_and_back() {
    let p = Vec2i::new(7, -3);
    let f = p.to_vec2f();
    assert_eq!(f, Vec2f::new(70, -30));
    assert_eq!(f.to_vec2i(), p);
}

#[test]
fn rounding_halves_away_from_zero() {
    assert_eq!(Vec2f::new(14, 15).round(), Vec2f::new(10, 20));
    assert_eq!(Vec2f::new(-14, -15).round(), Vec2f::new(-10, -20));
    assert_eq!(Vec2f::new(26, -26).round(), Vec2f::new(30, -30));
}

#[test]
fn floor_and_ceil_snap() {
    assert_eq!(Vec2f::new(19, -1).floor(), Vec2f::new(10, -10));
    assert_eq!(Vec2f::new(11, -19).ceil(), Vec2f::new(20, -10));
    assert_eq!(Vec2f::new(20, -20).floor(), Vec2f::new(20, -20));
    assert_eq!(Vec2f::new(20, -20).ceil(), Vec2f::new(20, -20));
}

#[test]
fn truncation_toward_zero() {
    assert_eq!(Vec2f::new(19, -19).to_vec2i(), Vec2i::new(1, -1));
    assert_eq!(Vec2f::new(9, -9).to_vec2i(), Vec2i::new(0, 0));
}

#[test]
fn radius_test_is_euclidean() {
    let o = Vec2f::new(0, 0);
    assert!(within_radius(Vec2f::new(3, 4), o, 5));
    assert!(!within_radius(Vec2f::new(3, 5), o, 5));
    assert!(within_radius(Vec2f::new(0, 5), o, 5));
}

#[test]
fn rectangle_contains_is_inclusive() {
    let r = Rectangle { top: 10, bottom: -10, left: -20, right: 20 };
    assert!(r.contains(Vec2f::new(20, 10)));
    assert!(r.contains(Vec2f::new(-20, -10)));
    assert!(!r.contains(Vec2f::new(21, 0)));
    assert_eq!(r.center(), Vec2f::new(0, 0));
    assert_eq!(r.width(), 40);
    assert_eq!(r.height(), 20);
}

#[test]
fn triangle_contains_boundary_and_interior() {
    let t = Triangle {
        a: Vec2f::new(0, 0),
        b: Vec2f::new(40, 0),
        c: Vec2f::new(0, 40),
    };
    assert!(t.contains(Vec2f::new(10, 10)));
    // A point on the hypotenuse (zero cross product) counts as inside.
    assert!(t.contains(Vec2f::new(20, 20)));
    // A point on the bottom edge counts as inside; the corner at the
    // origin falls on the open side of the sign convention.
    assert!(t.contains(Vec2f::new(20, 0)));
    assert!(!t.contains(Vec2f::new(0, 0)));
    assert!(!t.contains(Vec2f::new(30, 30)));
    assert!(!t.contains(Vec2f::new(-1, 10)));
}
