//! Netlist construction: connectivity grouping and width inference.

use circuit_edit::component::{Component, ComponentKind};
use circuit_edit::math::Vec2i;
use circuit_edit::netlist::{group_widths, wire_groups};
use circuit_edit::wire::WireSegment;

fn seg(ax: i32, ay: i32, bx: i32, by: i32) -> WireSegment {
    WireSegment::new(Vec2i::new(ax, ay), Vec2i::new(bx, by))
}

fn input_at(x: i32, y: i32, width: u8) -> Component {
    let mut c = Component::new(ComponentKind::Input {
        name: String::new(),
        value: 0,
        width,
    });
    c.position = Vec2i::new(x, y);
    c
}

#[test]
fn chained_segments_share_a_group() {
    // Three segments joined end to end, plus one disconnected.
    let segs = vec![seg(0, 0, 2, 0), seg(2, 0, 2, 3), seg(2, 3, 7, 3), seg(20, 20, 21, 20)];
    let (groups, map) = wire_groups(&segs);
    assert_eq!(map.len(), 4);
    assert_eq!(map[0], map[1]);
    assert_eq!(map[1], map[2]);
    assert_ne!(map[0], map[3]);
    assert_eq!(groups.len(), 2);
    assert_eq!(groups[0], vec![0, 1, 2]);
    assert_eq!(groups[1], vec![3]);
}

#[test]
fn groups_join_only_through_endpoints() {
    // The second segment touches the first only at its midpoint (2,2).
    let segs = vec![seg(0, 0, 5, 2), seg(2, 2, 2, 8)];
    let (groups, map) = wire_groups(&segs);
    assert_eq!(groups.len(), 2);
    assert_ne!(map[0], map[1]);
}

#[test]
fn width_defaults_to_one_without_anchors() {
    let segs = vec![seg(0, 0, 2, 0)];
    let (groups, map) = wire_groups(&segs);
    let comps: Vec<Component> = Vec::new();
    let ws = group_widths(&segs, &comps, &map, groups.len()).unwrap();
    assert_eq!(ws, vec![1]);
}

#[test]
fn width_comes_from_the_touching_anchor() {
    // The input's output anchor sits one unit above its position.
    let segs = vec![seg(0, 1, 4, 1)];
    let (groups, map) = wire_groups(&segs);
    let comps = vec![input_at(0, 0, 8)];
    let ws = group_widths(&segs, &comps, &map, groups.len()).unwrap();
    assert_eq!(ws, vec![8]);
}

#[test]
fn agreeing_anchors_infer_their_width() {
    let segs = vec![seg(0, 1, 4, 1)];
    let (groups, map) = wire_groups(&segs);
    let comps = vec![input_at(0, 0, 4), input_at(4, 0, 4)];
    let ws = group_widths(&segs, &comps, &map, groups.len()).unwrap();
    assert_eq!(ws, vec![4]);
}

#[test]
fn differing_anchor_widths_conflict() {
    let segs = vec![seg(0, 1, 4, 1)];
    let (groups, map) = wire_groups(&segs);
    let comps = vec![input_at(0, 0, 1), input_at(4, 0, 2)];
    assert!(group_widths(&segs, &comps, &map, groups.len()).is_err());
}

#[test]
fn conflict_is_transitive_across_a_net() {
    // The two differing anchors touch different segments of one net.
    let segs = vec![seg(0, 1, 4, 1), seg(4, 1, 8, 1)];
    let (groups, map) = wire_groups(&segs);
    assert_eq!(groups.len(), 1);
    let comps = vec![input_at(0, 0, 1), input_at(8, 0, 2)];
    assert!(group_widths(&segs, &comps, &map, groups.len()).is_err());
}
