//! A circuit-editing and netlist-construction engine for a schematic editor
//! of digital logic.
//!
//! Components (input and output ports, clock inputs, splitters, boolean
//! gates) are placed on an integer grid, rotated and mirrored, and joined by
//! wire segments.  The library models the pointer-driven selection and drag
//! state machine, hit-testing, automatic wire routing and segment splitting,
//! and the grouping of wire segments into nets with bit-width inference.
//! Simulation itself is delegated to the external `gsim` engine; this crate
//! only builds the graph handed to it.
//!
//! Coordinates come in two precisions: [`math::Vec2i`] holds whole grid
//! units, while [`math::Vec2f`] holds fine coordinates in tenths of a grid
//! unit (one logical pixel).  All geometry is exact integer arithmetic.

pub mod circuit;
pub mod component;
pub mod math;
pub mod netlist;
pub mod sim;
pub mod theme;
pub mod wire;
