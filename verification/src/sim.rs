//! Trusted bridge to the external `gsim` gate-level simulator.
//!
//! The simulator is an opaque service: this module declares its types and
//! wraps the handful of calls the netlist builder makes.  Everything that
//! decides or computes on the editor's side stays outside this module and
//! is verified.

use vstd::prelude::*;

verus! {

#[verifier::external_type_specification]
#[verifier::external_body]
pub struct ExWireId(gsim::WireId);

#[verifier::external_type_specification]
#[verifier::external_body]
pub struct ExComponentId(gsim::ComponentId);

#[verifier::external_type_specification]
#[verifier::external_body]
pub struct ExSimulatorBuilder(gsim::SimulatorBuilder);

/// A frozen, runnable simulation.
///
/// `gsim::Simulator` is generic over a VCD trace sink bounded by
/// `std::io::Write`, a bound Verus refuses to declare, so the simulator is
/// held opaquely in this struct instead of being declared directly.
#[verifier::external_body]
pub struct SimInstance {
    inner: gsim::Simulator<std::io::Sink>,
}

/// What one run of the simulation reported.
pub enum SimRunOutcome {
    /// The simulation settled.
    Settled,
    /// The simulation did not settle within the allowed number of steps.
    MaxStepsReached,
    /// Two or more drivers disagreed; the listed simulator wires conflict.
    Conflict(Vec<gsim::WireId>),
}

/// Relies on `PartialEq` derived for `gsim::WireId`, a transparent `u32`
/// newtype: it decides equality of the two handles.
#[verifier::external_body]
pub(crate) fn wire_id_eq(a: gsim::WireId, b: gsim::WireId) -> (r: bool)
    ensures
        r == (a == b),
{
    a == b
}

/// Relies on `gsim::SimulatorBuilder::default`: an empty simulation graph.
#[verifier::external_body]
pub(crate) fn builder_new() -> gsim::SimulatorBuilder {
    gsim::SimulatorBuilder::default()
}

/// Relies on `gsim::SimulatorBuilder::add_wire`: adds a wire of the given
/// width and returns its handle, or `None` once the simulator's wire limit
/// is reached.
#[verifier::external_body]
pub(crate) fn builder_add_wire(b: &mut gsim::SimulatorBuilder, width: u8) -> Option<gsim::WireId>
    requires
        1 <= width,
{
    b.add_wire(std::num::NonZeroU8::new(width).unwrap())
}

/// Relies on `gsim::SimulatorBuilder::set_wire_drive` with
/// `gsim::LogicState::from_int`: drives the wire to the given value, `false`
/// if the handle was not part of this builder.
#[verifier::external_body]
pub(crate) fn builder_set_wire_drive(
    b: &mut gsim::SimulatorBuilder,
    wire: gsim::WireId,
    value: u32,
) -> bool {
    b.set_wire_drive(wire, &gsim::LogicState::from_int(value)).is_ok()
}

/// Relies on `gsim::SimulatorBuilder::add_and_gate`: registers a two-input
/// AND gate, `None` if the simulator refused it (bad handle, width
/// mismatch, or component limit).
#[verifier::external_body]
pub(crate) fn builder_add_and_gate(
    b: &mut gsim::SimulatorBuilder,
    input_a: gsim::WireId,
    input_b: gsim::WireId,
    output: gsim::WireId,
) -> Option<gsim::ComponentId> {
    b.add_and_gate(&[input_a, input_b], output).ok()
}

/// Relies on `gsim::SimulatorBuilder::add_or_gate`; see the AND wrapper.
#[verifier::external_body]
pub(crate) fn builder_add_or_gate(
    b: &mut gsim::SimulatorBuilder,
    input_a: gsim::WireId,
    input_b: gsim::WireId,
    output: gsim::WireId,
) -> Option<gsim::ComponentId> {
    b.add_or_gate(&[input_a, input_b], output).ok()
}

/// Relies on `gsim::SimulatorBuilder::add_xor_gate`; see the AND wrapper.
#[verifier::external_body]
pub(crate) fn builder_add_xor_gate(
    b: &mut gsim::SimulatorBuilder,
    input_a: gsim::WireId,
    input_b: gsim::WireId,
    output: gsim::WireId,
) -> Option<gsim::ComponentId> {
    b.add_xor_gate(&[input_a, input_b], output).ok()
}

/// Relies on `gsim::SimulatorBuilder::add_nand_gate`; see the AND wrapper.
#[verifier::external_body]
pub(crate) fn builder_add_nand_gate(
    b: &mut gsim::SimulatorBuilder,
    input_a: gsim::WireId,
    input_b: gsim::WireId,
    output: gsim::WireId,
) -> Option<gsim::ComponentId> {
    b.add_nand_gate(&[input_a, input_b], output).ok()
}

/// Relies on `gsim::SimulatorBuilder::add_nor_gate`; see the AND wrapper.
#[verifier::external_body]
pub(crate) fn builder_add_nor_gate(
    b: &mut gsim::SimulatorBuilder,
    input_a: gsim::WireId,
    input_b: gsim::WireId,
    output: gsim::WireId,
) -> Option<gsim::ComponentId> {
    b.add_nor_gate(&[input_a, input_b], output).ok()
}

/// Relies on `gsim::SimulatorBuilder::add_xnor_gate`; see the AND wrapper.
#[verifier::external_body]
pub(crate) fn builder_add_xnor_gate(
    b: &mut gsim::SimulatorBuilder,
    input_a: gsim::WireId,
    input_b: gsim::WireId,
    output: gsim::WireId,
) -> Option<gsim::ComponentId> {
    b.add_xnor_gate(&[input_a, input_b], output).ok()
}

/// Relies on `gsim::SimulatorBuilder::build`: freezes the graph into a
/// runnable simulator.
#[verifier::external_body]
pub(crate) fn builder_build(b: gsim::SimulatorBuilder) -> SimInstance {
    SimInstance { inner: b.build() }
}

/// Relies on `gsim::Simulator::set_wire_drive` with
/// `gsim::LogicState::from_int`: drives the wire to the given value, `false`
/// if the handle was not part of this simulation.
#[verifier::external_body]
pub(crate) fn sim_set_wire_drive(
    s: &mut SimInstance,
    wire: gsim::WireId,
    value: u32,
) -> bool {
    s.inner.set_wire_drive(wire, &gsim::LogicState::from_int(value)).is_ok()
}

/// Relies on `gsim::Simulator::run_sim`: runs until the simulation settles,
/// at most `max_steps` steps, and reports settling, exhaustion of the step
/// budget, or the set of driver-conflicted wires.
#[verifier::external_body]
pub(crate) fn sim_run(s: &mut SimInstance, max_steps: u64) -> SimRunOutcome {
    match s.inner.run_sim(max_steps) {
        gsim::SimulationRunResult::Ok => SimRunOutcome::Settled,
        gsim::SimulationRunResult::MaxStepsReached => SimRunOutcome::MaxStepsReached,
        gsim::SimulationRunResult::Err(err) => {
            SimRunOutcome::Conflict(err.conflicts.into_vec())
        },
    }
}

/// Relies on `gsim::Simulator::get_wire_state` and
/// `gsim::LogicState::to_bool`: the wire's low bit as a boolean, `None` for
/// an unknown handle or a high-impedance/undefined bit.
#[verifier::external_body]
pub(crate) fn sim_wire_state_bit(
    s: &SimInstance,
    wire: gsim::WireId,
) -> Option<bool> {
    match s.inner.get_wire_state(wire) {
        Ok(state) => state.to_bool().ok(),
        Err(_) => None,
    }
}

} // verus!
