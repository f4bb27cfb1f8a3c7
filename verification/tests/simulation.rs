//! Driving the external gate-level simulator: building the netlist,
//! live-toggling inputs, clock stepping, and conflict reporting.

use circuit_edit::circuit::{Circuit, DragMode, SimRunStatus, StartSimError};
use circuit_edit::component::{Component, ComponentKind};
use circuit_edit::math::{Vec2f, Vec2i};
use circuit_edit::wire::WireSegment;

fn comp_at(kind: ComponentKind, x: i32, y: i32) -> Component {
    let mut c = Component::new(kind);
    c.position = Vec2i::new(x, y);
    c
}

fn input_at(x: i32, y: i32, value: u32) -> Component {
    comp_at(ComponentKind::Input { name: String::new(), value, width: 1 }, x, y)
}

fn restore(comps: Vec<Component>, segs: Vec<WireSegment>) -> Circuit {
    Circuit::restore("s".to_string(), Vec2f::new(0, 0), 500, comps, segs).unwrap()
}

/// Two input ports wired to an AND gate whose output hangs free.
fn and_gate_circuit() -> Circuit {
    restore(
        vec![
            input_at(0, 0, 0),
            input_at(4, 0, 0),
            comp_at(ComponentKind::new_and_gate(), 1, 5),
        ],
        vec![
            WireSegment::new(Vec2i::new(0, 1), Vec2i::new(0, 3)),
            WireSegment::new(Vec2i::new(4, 1), Vec2i::new(2, 3)),
        ],
    )
}

#[test]
fn and_gate_follows_its_inputs() {
    let mut c = and_gate_circuit();
    assert_eq!(c.start_simulation(100), Ok(SimRunStatus::Settled));
    assert!(c.is_sim_active());
    // The third anchor, the output, rides a fresh unconnected wire.
    assert_eq!(c.anchor_wire_state(2, 2), Some(false));

    // A live click on input A toggles its drive: 1 AND 0 == 0.
    assert!(c.primary_button_pressed(Vec2f::new(0, 0), DragMode::BoxSelection, 100));
    c.primary_button_released(Vec2f::new(0, 0));
    assert_eq!(c.input_value(0), Some(1));
    assert_eq!(c.anchor_wire_state(0, 0), Some(true));
    assert_eq!(c.anchor_wire_state(2, 2), Some(false));

    // Toggling input B as well: 1 AND 1 == 1.
    assert!(c.primary_button_pressed(Vec2f::new(40, 0), DragMode::BoxSelection, 100));
    c.primary_button_released(Vec2f::new(40, 0));
    assert_eq!(c.input_value(1), Some(1));
    assert_eq!(c.anchor_wire_state(2, 2), Some(true));

    // A clock phase with no clocks present leaves the values settled.
    assert_eq!(c.step_simulation(100), SimRunStatus::Settled);
    assert_eq!(c.anchor_wire_state(2, 2), Some(true));

    // Toggling A back: 0 AND 1 == 0.
    assert!(c.primary_button_pressed(Vec2f::new(0, 0), DragMode::BoxSelection, 100));
    c.primary_button_released(Vec2f::new(0, 0));
    assert_eq!(c.input_value(0), Some(0));
    assert_eq!(c.anchor_wire_state(2, 2), Some(false));
}

#[test]
fn opposing_drivers_on_one_segment_conflict() {
    let mut c = restore(
        vec![input_at(0, 0, 1), input_at(4, 0, 0)],
        vec![WireSegment::new(Vec2i::new(0, 1), Vec2i::new(4, 1))],
    );
    assert_eq!(c.start_simulation(100), Ok(SimRunStatus::DriverConflict));
    assert!(!c.is_sim_active());
    assert_eq!(c.conflict_segments(), Some(&vec![0usize]));

    c.stop_simulation();
    assert!(c.conflict_segments().is_none());
    assert!(c.wire_segments()[0].sim_wire.is_none());
    assert!(c.components()[0].sim_anchor_wires.is_empty());
    assert!(c.components()[0].sim_drive_wire.is_none());
}

#[test]
fn two_ports_on_one_net_are_two_drivers() {
    // The engine treats every port as a real driver: two ports wired
    // together conflict even when they agree.
    let mut c = restore(
        vec![input_at(0, 0, 1), input_at(4, 0, 1)],
        vec![WireSegment::new(Vec2i::new(0, 1), Vec2i::new(4, 1))],
    );
    assert_eq!(c.start_simulation(100), Ok(SimRunStatus::DriverConflict));
    assert_eq!(c.conflict_segments(), Some(&vec![0usize]));
}

#[test]
fn width_conflicts_stop_the_start() {
    let wide = comp_at(
        ComponentKind::Input { name: String::new(), value: 0, width: 2 },
        4,
        0,
    );
    let mut c = restore(
        vec![input_at(0, 0, 0), wide],
        vec![WireSegment::new(Vec2i::new(0, 1), Vec2i::new(4, 1))],
    );
    assert_eq!(c.start_simulation(100), Err(StartSimError::WidthConflict));
    assert!(!c.is_sim_active());
}

#[test]
fn splitters_are_not_simulated() {
    let splitter = comp_at(ComponentKind::Splitter { width: 2, ranges: vec![(0, 0), (1, 1)] }, 0, 0);
    let mut c = restore(vec![splitter], vec![]);
    assert_eq!(c.start_simulation(100), Err(StartSimError::SplitterUnsupported));
}

#[test]
fn a_zero_step_budget_is_exhausted() {
    // The netlist needs a few settle steps; a zero budget cannot cover
    // them and must surface as a distinct outcome, not an error.
    let mut c = and_gate_circuit();
    assert_eq!(c.start_simulation(0), Ok(SimRunStatus::MaxStepsReached));
    assert!(!c.is_sim_active());
}

#[test]
fn clock_inputs_toggle_each_step() {
    // A clock port driving a free net through one wire.
    let clk = comp_at(ComponentKind::new_clock_input(), 0, 0);
    let mut c = restore(
        vec![clk],
        vec![WireSegment::new(Vec2i::new(0, 1), Vec2i::new(4, 1))],
    );
    assert_eq!(c.start_simulation(100), Ok(SimRunStatus::Settled));
    assert_eq!(c.anchor_wire_state(0, 0), Some(false));
    assert_eq!(c.step_simulation(100), SimRunStatus::Settled);
    assert_eq!(c.anchor_wire_state(0, 0), Some(true));
    assert_eq!(c.step_simulation(100), SimRunStatus::Settled);
    assert_eq!(c.anchor_wire_state(0, 0), Some(false));
}
