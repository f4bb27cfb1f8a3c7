//! The editing API: selection, gestures, transforms, deletion and
//! snapshot restoration.

use circuit_edit::circuit::{Circuit, DragMode, HitTestResult, Selection};
use circuit_edit::component::{Component, ComponentKind};
use circuit_edit::math::{Vec2f, Vec2i};
use circuit_edit::wire::WireSegment;

fn input_at(x: i32, y: i32) -> Component {
    let mut c = Component::new(ComponentKind::new_input());
    c.position = Vec2i::new(x, y);
    c
}

fn gate_at(x: i32, y: i32) -> Component {
    let mut c = Component::new(ComponentKind::new_and_gate());
    c.position = Vec2i::new(x, y);
    c
}

fn restore(comps: Vec<Component>, segs: Vec<WireSegment>) -> Circuit {
    Circuit::restore("t".to_string(), Vec2f::new(0, 0), 500, comps, segs).unwrap()
}

#[test]
fn new_circuit_defaults() {
    let c = Circuit::new();
    assert_eq!(c.name(), "New Circuit");
    // The default slider position renders at unit zoom: a third of the
    // exponential range.
    assert_eq!(c.linear_zoom(), 333);
    assert_eq!(c.components().len(), 0);
    assert_eq!(c.wire_segments().len(), 0);
    assert!(matches!(c.selection(), Selection::Empty));
}

#[test]
fn zoom_control_clamps_and_reports_changes() {
    let mut c = Circuit::new();
    assert!(c.set_linear_zoom(300));
    assert!(!c.set_linear_zoom(300));
    assert!(c.set_linear_zoom(2000));
    assert_eq!(c.linear_zoom(), 1000);
    assert!(c.set_offset(Vec2f::new(5, -5)));
    assert!(!c.set_offset(Vec2f::new(5, -5)));
}

#[test]
fn rotating_four_times_restores_anchors_and_bounding_box() {
    let mut c = Circuit::new();
    c.add_component(ComponentKind::new_and_gate());
    c.move_selection(Vec2i::new(2, 3));
    let anchors0 = c.components()[0].anchors();
    let bb0 = c.components()[0].bounding_box();

    c.counterclockwise_rotate_selection();
    assert_ne!(c.components()[0].anchors(), anchors0);
    c.counterclockwise_rotate_selection();
    c.counterclockwise_rotate_selection();
    c.counterclockwise_rotate_selection();
    assert_eq!(c.components()[0].anchors(), anchors0);
    assert_eq!(c.components()[0].bounding_box(), bb0);

    c.clockwise_rotate_selection();
    c.clockwise_rotate_selection();
    c.clockwise_rotate_selection();
    c.clockwise_rotate_selection();
    assert_eq!(c.components()[0].anchors(), anchors0);
}

#[test]
fn mirroring_twice_restores_the_component() {
    let mut c = Circuit::new();
    c.add_component(ComponentKind::new_nand_gate());
    c.move_selection(Vec2i::new(-4, 1));
    let anchors0 = c.components()[0].anchors();
    let bb0 = c.components()[0].bounding_box();

    c.mirror_selection();
    assert_ne!(c.components()[0].anchors(), anchors0);
    c.mirror_selection();
    assert_eq!(c.components()[0].anchors(), anchors0);
    assert_eq!(c.components()[0].bounding_box(), bb0);
    assert!(!c.components()[0].mirrored);
}

#[test]
fn anchor_snap_beats_another_components_body() {
    // An anchor of the second component lies inside the body of the first.
    let c = restore(vec![gate_at(0, 0), input_at(1, 1)], vec![]);
    let hit = c.hit_test(Vec2f::new(10, 20), None);
    assert!(matches!(hit, HitTestResult::ComponentAnchor(1)));
    // With no anchor nearby, the same point hits a component body.
    let c2 = restore(vec![gate_at(0, 0)], vec![]);
    assert!(matches!(c2.hit_test(Vec2f::new(10, 20), None), HitTestResult::Component(0)));
}

#[test]
fn hit_testing_priorities_within_wires() {
    let c = restore(vec![], vec![WireSegment::new(Vec2i::new(0, 0), Vec2i::new(10, 0))]);
    assert!(matches!(c.hit_test(Vec2f::new(1, 1), None), HitTestResult::WirePointA(0)));
    assert!(matches!(c.hit_test(Vec2f::new(99, 1), None), HitTestResult::WirePointB(0)));
    assert!(matches!(c.hit_test(Vec2f::new(50, 1), None), HitTestResult::WireSegment(0, 0)));
    assert!(matches!(c.hit_test(Vec2f::new(50, 30), None), HitTestResult::Miss));
}

#[test]
fn press_selects_and_deadzone_holds_small_motion() {
    let mut c = restore(vec![input_at(0, 0), input_at(2, 0)], vec![]);
    assert!(c.primary_button_pressed(Vec2f::new(0, 0), DragMode::BoxSelection, 0));
    assert!(matches!(c.selection(), Selection::Component(0)));
    // Small motion stays in the dead zone: no box rectangle appears.
    assert!(!c.mouse_moved(Vec2f::new(3, 0), DragMode::BoxSelection));
    assert!(c.selection_box().is_none());
    c.primary_button_released(Vec2f::new(0, 0));
    assert!(matches!(c.selection(), Selection::Component(0)));
}

#[test]
fn box_selection_collects_members_and_move_round_trips() {
    let mut c = restore(
        vec![input_at(0, 0), input_at(2, 0)],
        vec![WireSegment::new(Vec2i::new(0, 1), Vec2i::new(2, 1))],
    );
    assert!(!c.primary_button_pressed(Vec2f::new(-30, -30), DragMode::BoxSelection, 0));
    assert!(c.mouse_moved(Vec2f::new(65, 60), DragMode::BoxSelection));
    assert!(c.selection_box().is_some());
    assert!(c.primary_button_released(Vec2f::new(35, 30)));

    match c.selection() {
        Selection::Multi { components, wire_segments, center } => {
            assert_eq!(components, &vec![0usize, 1usize]);
            assert_eq!(wire_segments, &vec![0usize]);
            assert_eq!(*center, Vec2f::new(10, 5));
        },
        _ => panic!("expected a multi-selection"),
    }

    // Moving by a delta and back restores every member exactly.
    c.move_selection(Vec2i::new(5, 7));
    assert_eq!(c.components()[0].position, Vec2i::new(5, 7));
    assert_eq!(c.wire_segments()[0].endpoint_a, Vec2i::new(5, 8));
    c.move_selection(Vec2i::new(-5, -7));
    assert_eq!(c.components()[0].position, Vec2i::new(0, 0));
    assert_eq!(c.components()[1].position, Vec2i::new(2, 0));
    assert_eq!(c.wire_segments()[0].endpoint_a, Vec2i::new(0, 1));
    assert_eq!(c.wire_segments()[0].endpoint_b, Vec2i::new(2, 1));
    match c.selection() {
        Selection::Multi { center, .. } => assert_eq!(*center, Vec2f::new(10, 5)),
        _ => panic!("multi-selection should survive moves"),
    }
}

#[test]
fn box_selection_includes_wires_by_midpoint() {
    // The bent segment's only drawn point inside the band is its
    // routed mid-point at (2,2).
    let mut c = restore(vec![], vec![WireSegment::new(Vec2i::new(0, 0), Vec2i::new(5, 2))]);
    assert!(!c.primary_button_pressed(Vec2f::new(14, 2), DragMode::BoxSelection, 0));
    assert!(c.mouse_moved(Vec2f::new(12, 24), DragMode::BoxSelection));
    assert!(c.primary_button_released(Vec2f::new(26, 26)));
    assert!(matches!(c.selection(), Selection::WireSegment(0)));
}

#[test]
fn drawing_a_wire_creates_a_routed_segment() {
    let mut c = Circuit::new();
    assert!(!c.primary_button_pressed(Vec2f::new(0, 0), DragMode::DrawWire, 0));
    assert!(c.mouse_moved(Vec2f::new(52, 20), DragMode::DrawWire));
    assert_eq!(c.wire_segments().len(), 1);
    c.primary_button_released(Vec2f::new(52, 20));
    let s = &c.wire_segments()[0];
    assert_eq!(s.endpoint_a, Vec2i::new(0, 0));
    assert_eq!(s.endpoint_b, Vec2i::new(5, 2));
    assert_eq!(s.midpoints, vec![Vec2i::new(2, 2)]);
}

#[test]
fn dropping_a_wire_end_on_a_body_splits_it() {
    let mut c = restore(vec![], vec![WireSegment::new(Vec2i::new(0, 0), Vec2i::new(10, 0))]);
    assert!(!c.primary_button_pressed(Vec2f::new(50, 30), DragMode::DrawWire, 0));
    assert!(c.mouse_moved(Vec2f::new(0, -30), DragMode::DrawWire));
    c.primary_button_released(Vec2f::new(50, 0));
    // The original segment is cut at (5,0); the drawn wire remains.
    assert_eq!(c.wire_segments().len(), 3);
    assert_eq!(c.wire_segments()[0].endpoint_a, Vec2i::new(0, 0));
    assert_eq!(c.wire_segments()[0].endpoint_b, Vec2i::new(5, 0));
    assert_eq!(c.wire_segments()[1].endpoint_a, Vec2i::new(5, 3));
    assert_eq!(c.wire_segments()[1].endpoint_b, Vec2i::new(5, 0));
    assert_eq!(c.wire_segments()[2].endpoint_a, Vec2i::new(5, 0));
    assert_eq!(c.wire_segments()[2].endpoint_b, Vec2i::new(10, 0));
}

#[test]
fn deleting_the_selection_removes_it_and_clears() {
    let mut c = restore(
        vec![input_at(0, 0), input_at(5, 0)],
        vec![WireSegment::new(Vec2i::new(0, 1), Vec2i::new(5, 1))],
    );
    assert!(c.primary_button_pressed(Vec2f::new(50, 0), DragMode::BoxSelection, 0));
    c.primary_button_released(Vec2f::new(50, 0));
    assert!(matches!(c.selection(), Selection::Component(1)));
    c.delete_selection();
    assert_eq!(c.components().len(), 1);
    assert_eq!(c.components()[0].position, Vec2i::new(0, 0));
    assert_eq!(c.wire_segments().len(), 1);
    assert!(matches!(c.selection(), Selection::Empty));
}

#[test]
fn second_press_during_a_gesture_is_rejected() {
    let mut c = restore(vec![input_at(0, 0)], vec![]);
    c.primary_button_pressed(Vec2f::new(0, 0), DragMode::BoxSelection, 0);
    // The dead zone is an active gesture: another press changes nothing.
    assert!(!c.primary_button_pressed(Vec2f::new(500, 500), DragMode::BoxSelection, 0));
    assert!(matches!(c.selection(), Selection::Component(0)));
}

#[test]
fn secondary_release_selects_under_the_pointer() {
    let mut c = restore(vec![input_at(0, 0)], vec![]);
    assert!(!c.secondary_button_pressed(Vec2f::new(0, 0)));
    assert!(c.secondary_button_released(Vec2f::new(0, 0)));
    assert!(matches!(c.selection(), Selection::Component(0)));
}

#[test]
fn restore_validates_its_snapshot() {
    let bad_width = vec![Component::new(ComponentKind::Input {
        name: String::new(),
        value: 0,
        width: 0,
    })];
    assert!(Circuit::restore("x".to_string(), Vec2f::new(0, 0), 500, bad_width, vec![]).is_err());

    let mut far = Component::new(ComponentKind::new_input());
    far.position = Vec2i::new(2_000_000_000, 0);
    assert!(Circuit::restore("x".to_string(), Vec2f::new(0, 0), 500, vec![far], vec![]).is_err());

    let ok = Circuit::restore(
        "named".to_string(),
        Vec2f::new(7, -7),
        123,
        vec![input_at(1, 2)],
        vec![WireSegment::new(Vec2i::new(0, 0), Vec2i::new(3, 1))],
    ).unwrap();
    assert_eq!(ok.name(), "named");
    assert_eq!(ok.linear_zoom(), 123);
    assert_eq!(ok.offset(), Vec2f::new(7, -7));
    assert_eq!(ok.components().len(), 1);
    assert_eq!(ok.wire_segments().len(), 1);
}

#[test]
fn kind_labels_and_names() {
    assert_eq!(ComponentKind::new_and_gate().label(), "AND");
    assert_eq!(ComponentKind::new_xnor_gate().label(), "XNOR");
    assert_eq!(ComponentKind::new_output().label(), "");
    let named = ComponentKind::Input { name: "clk_a".to_string(), value: 0, width: 1 };
    assert_eq!(named.name(), "clk_a");
    assert_eq!(ComponentKind::new_nor_gate().name(), "");
}
