//! Wire segments: the routing rule, stroke containment and splitting.

use circuit_edit::math::{Vec2f, Vec2i};
use circuit_edit::wire::WireSegment;

#[test]
fn straight_runs_have_no_midpoint() {
    assert_eq!(WireSegment::new(Vec2i::new(0, 0), Vec2i::new(5, 0)).midpoints.len(), 0);
    assert_eq!(WireSegment::new(Vec2i::new(0, 0), Vec2i::new(0, 7)).midpoints.len(), 0);
    assert_eq!(WireSegment::new(Vec2i::new(0, 0), Vec2i::new(4, 4)).midpoints.len(), 0);
    assert_eq!(WireSegment::new(Vec2i::new(2, 2), Vec2i::new(2, 2)).midpoints.len(), 0);
}

#[test]
fn bent_runs_get_one_midpoint_adjacent_to_b() {
    let s = WireSegment::new(Vec2i::new(0, 0), Vec2i::new(5, 2));
    assert_eq!(s.midpoints, vec![Vec2i::new(2, 2)]);

    let s = WireSegment::new(Vec2i::new(0, 0), Vec2i::new(2, 5));
    assert_eq!(s.midpoints, vec![Vec2i::new(2, 2)]);

    let s = WireSegment::new(Vec2i::new(0, 0), Vec2i::new(-5, -2));
    assert_eq!(s.midpoints, vec![Vec2i::new(-2, -2)]);
}

#[test]
fn midpoints_recompute_on_endpoint_change() {
    let mut s = WireSegment::new(Vec2i::new(0, 0), Vec2i::new(5, 2));
    s.endpoint_b = Vec2i::new(5, 0);
    s.update_midpoints();
    assert_eq!(s.midpoints.len(), 0);
}

#[test]
fn stroke_containment_and_sub_segment_index() {
    let s = WireSegment::new(Vec2i::new(0, 0), Vec2i::new(10, 0));
    assert_eq!(s.contains(Vec2f::new(50, 0)), Some(0));
    assert_eq!(s.contains(Vec2f::new(50, 1)), Some(0));
    assert_eq!(s.contains(Vec2f::new(50, 2)), None);
    // The stroke quad ends exactly at the endpoints lengthwise.
    assert_eq!(s.contains(Vec2f::new(100, 1)), Some(0));
    assert_eq!(s.contains(Vec2f::new(101, 0)), None);

    let bent = WireSegment::new(Vec2i::new(0, 0), Vec2i::new(5, 2));
    // Second leg runs horizontally from the midpoint (2,2) to (5,2).
    assert_eq!(bent.contains(Vec2f::new(40, 20)), Some(1));
    assert_eq!(bent.contains(Vec2f::new(10, 10)), Some(0));
}

#[test]
fn split_inserts_the_cut_point() {
    let mut s = WireSegment::new(Vec2i::new(0, 0), Vec2i::new(5, 2));
    let tail = s.split_at(1, Vec2i::new(3, 2));
    assert_eq!(s.endpoint_a, Vec2i::new(0, 0));
    assert_eq!(s.midpoints, vec![Vec2i::new(2, 2)]);
    assert_eq!(s.endpoint_b, Vec2i::new(3, 2));
    assert_eq!(tail.endpoint_a, Vec2i::new(3, 2));
    assert_eq!(tail.midpoints.len(), 0);
    assert_eq!(tail.endpoint_b, Vec2i::new(5, 2));

    // Re-merging the two halves gives the original point sequence with
    // the cut point inserted at the cut.
    let mut merged = vec![s.endpoint_a];
    merged.extend(s.midpoints.iter().copied());
    merged.push(s.endpoint_b);
    merged.extend(tail.midpoints.iter().copied());
    merged.push(tail.endpoint_b);
    assert_eq!(
        merged,
        vec![Vec2i::new(0, 0), Vec2i::new(2, 2), Vec2i::new(3, 2), Vec2i::new(5, 2)],
    );
}

#[test]
fn split_on_an_existing_midpoint_reconstructs_exactly() {
    let mut s = WireSegment::new(Vec2i::new(0, 0), Vec2i::new(5, 2));
    let tail = s.split_at(1, Vec2i::new(2, 2));
    assert_eq!(s.midpoints.len(), 0);
    assert_eq!(s.endpoint_b, Vec2i::new(2, 2));
    assert_eq!(tail.endpoint_a, Vec2i::new(2, 2));
    assert_eq!(tail.midpoints.len(), 0);
    assert_eq!(tail.endpoint_b, Vec2i::new(5, 2));

    let mut merged = vec![s.endpoint_a];
    merged.extend(s.midpoints.iter().copied());
    merged.push(s.endpoint_b);
    merged.extend(tail.midpoints.iter().copied());
    merged.push(tail.endpoint_b);
    assert_eq!(merged, vec![Vec2i::new(0, 0), Vec2i::new(2, 2), Vec2i::new(5, 2)]);
}
