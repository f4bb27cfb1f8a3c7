//! The circuit aggregate: components, wire segments, selection and drag
//! state machines, hit-testing, and the bridge into the external
//! simulator.
//!
//! Pointer positions reach this module already converted to logical fine
//! coordinates (tenths of a grid unit); the embedding layer divides by its
//! rendering zoom and adds the view offset before calling in.

use vstd::prelude::*;
use crate::component::{Component, ComponentKind, Rotation};
use crate::math::{Rectangle, Vec2f, Vec2i, COORD_LIMIT, FINE_LIMIT, FINE_STEPS, GRID_FINE_LIMIT};
use vstd::pervasive::VecAdditionalExecFns;
use crate::sim::SimInstance;
use crate::wire::WireSegment;

verus! {

/// Upper bound of the linear zoom control, in thousandths.
pub const LINEAR_ZOOM_MAX: u32 = 1000;

/// What a press-and-drag does once it leaves the dead zone.
#[derive(Clone, Copy, Debug, PartialEq, Eq, Structural)]
pub enum DragMode {
    BoxSelection,
    DrawWire,
}

impl Default for DragMode {
    fn default() -> (r: Self)
        ensures
            r == DragMode::BoxSelection,
    {
        DragMode::BoxSelection
    }
}

/// What is currently selected.
///
/// Indices refer to the circuit's component and wire-segment vectors and
/// are only valid until one of those vectors changes length.
pub enum Selection {
    Empty,
    Component(usize),
    WireSegment(usize),
    Multi { components: Vec<usize>, wire_segments: Vec<usize>, center: Vec2f },
}

impl Selection {
    /// Whether the component index is part of the selection.
    pub open spec fn spec_contains_component(self, component: usize) -> bool {
        match self {
            Selection::Empty => false,
            Selection::Component(c) => c == component,
            Selection::WireSegment(_) => false,
            Selection::Multi { components, .. } => components@.contains(component),
        }
    }

    /// Whether the wire-segment index is part of the selection.
    pub open spec fn spec_contains_wire_segment(self, segment: usize) -> bool {
        match self {
            Selection::Empty => false,
            Selection::Component(_) => false,
            Selection::WireSegment(s) => s == segment,
            Selection::Multi { wire_segments, .. } => wire_segments@.contains(segment),
        }
    }

    /// Tests whether the component index is part of the selection.
    pub fn contains_component(&self, component: usize) -> (r: bool)
        ensures
            r == self.spec_contains_component(component),
    {
        match self {
            Selection::Empty => false,
            Selection::Component(c) => *c == component,
            Selection::WireSegment(_) => false,
            Selection::Multi { components, .. } => contains_index(components, component),
        }
    }

    /// Tests whether the wire-segment index is part of the selection.
    pub fn contains_wire_segment(&self, segment: usize) -> (r: bool)
        ensures
            r == self.spec_contains_wire_segment(segment),
    {
        match self {
            Selection::Empty => false,
            Selection::Component(_) => false,
            Selection::WireSegment(s) => *s == segment,
            Selection::Multi { wire_segments, .. } => contains_index(wire_segments, segment),
        }
    }
}

/// Linear membership test on an index list.
fn contains_index(v: &Vec<usize>, x: usize) -> (r: bool)
    ensures
        r == v@.contains(x),
{
    let n = v.len();
    for i in 0..n
        invariant
            n == v@.len(),
            forall|k: int| 0 <= k < i ==> v@[k] != x,
    {
        if v[i] == x {
            proof {
                assert(v@[i as int] == x);
            }
            return true;
        }
    }
    false
}

/// The pointer gesture in progress.  Exactly one variant is active at a
/// time; the state is session-local and never persisted.
#[derive(Clone, Copy, Debug, PartialEq, Eq, Structural)]
pub enum DragState {
    Idle,
    Deadzone { drag_start: Vec2f, drag_delta: Vec2f },
    DrawingBoxSelection { drag_start: Vec2f, drag_delta: Vec2f },
    DraggingWirePointA { wire_segment: usize, drag_start: Vec2f, drag_delta: Vec2f },
    DraggingWirePointB { wire_segment: usize, drag_start: Vec2f, drag_delta: Vec2f },
    Dragging { fract_drag_delta: Vec2f },
}

/// The highest-priority entity under a point.
pub enum HitTestResult {
    Miss,
    Component(usize),
    WireSegment(usize, usize),
    ComponentAnchor(usize),
    WirePointA(usize),
    WirePointB(usize),
}

/// The simulation attached to the circuit, if any.
pub enum SimState {
    Inactive,
    Active { sim: SimInstance, clock_state: bool },
    Conflict { sim: SimInstance, conflict_segments: Vec<usize> },
}

/// A strictly increasing list of indices below `len`.
pub open spec fn index_list_wf(v: Seq<usize>, len: int) -> bool {
    &&& forall|k: int| 0 <= k < v.len() ==> (#[trigger] v[k] as int) < len
    &&& forall|k1: int, k2: int| 0 <= k1 < k2 < v.len() ==> v[k1] < v[k2]
}

/// A drag coordinate within the working range.
pub open spec fn drag_bounded(v: Vec2f) -> bool {
    -GRID_FINE_LIMIT <= v.x <= GRID_FINE_LIMIT && -GRID_FINE_LIMIT <= v.y <= GRID_FINE_LIMIT
}

/// The name a fresh circuit carries.
pub open spec fn new_circuit_name() -> Seq<char> {
    "New Circuit"@
}

/// The default position of the linear zoom control, in thousandths: the
/// point of the exponential zoom curve (spanning a factor of eight) that
/// renders at unit zoom, one third of the range.
pub open spec fn default_linear_zoom() -> u32 {
    333
}

/// The abstract state of a [`Circuit`], for specifications.
pub struct CircuitView {
    pub name: Seq<char>,
    pub offset: Vec2f,
    pub linear_zoom: u32,
    pub components: Seq<Component>,
    pub wire_segments: Seq<WireSegment>,
    pub selection: Selection,
    pub drag_state: DragState,
    pub primary_down: bool,
    pub secondary_down: bool,
    pub sim_state: SimState,
}

impl CircuitView {
    /// Structural health of the whole aggregate: geometry in bounds, the
    /// zoom control in range, and every selection or drag index valid.
    pub open spec fn wf(self) -> bool {
        &&& self.linear_zoom <= LINEAR_ZOOM_MAX
        &&& self.offset.in_bounds()
        &&& forall|c: int| 0 <= c < self.components.len() ==> (#[trigger] self.components[c]).wf()
        &&& forall|i: int|
            0 <= i < self.wire_segments.len() ==> (#[trigger] self.wire_segments[i]).wf()
        &&& self.selection_wf()
        &&& self.drag_state_wf()
    }

    /// Selection indices are valid; a multi-selection keeps its index
    /// lists strictly increasing (hence duplicate-free) and its pivot in
    /// range.
    pub open spec fn selection_wf(self) -> bool {
        match self.selection {
            Selection::Empty => true,
            Selection::Component(c) => (c as int) < self.components.len(),
            Selection::WireSegment(s) => (s as int) < self.wire_segments.len(),
            Selection::Multi { components, wire_segments, center } => {
                &&& index_list_wf(components@, self.components.len() as int)
                &&& index_list_wf(wire_segments@, self.wire_segments.len() as int)
                &&& center.in_bounds()
            },
        }
    }

    /// Drag coordinates stay within the working range and drag targets
    /// are valid wire indices.
    pub open spec fn drag_state_wf(self) -> bool {
        match self.drag_state {
            DragState::Idle => true,
            DragState::Deadzone { drag_start, drag_delta } => drag_bounded(drag_start)
                && drag_bounded(drag_delta),
            DragState::DrawingBoxSelection { drag_start, drag_delta } => drag_bounded(drag_start)
                && drag_bounded(drag_delta),
            DragState::DraggingWirePointA { wire_segment, drag_start, drag_delta } => (
            wire_segment as int) < self.wire_segments.len() && drag_bounded(drag_start)
                && drag_bounded(drag_delta),
            DragState::DraggingWirePointB { wire_segment, drag_start, drag_delta } => (
            wire_segment as int) < self.wire_segments.len() && drag_bounded(drag_start)
                && drag_bounded(drag_delta),
            DragState::Dragging { fract_drag_delta } => drag_bounded(fract_drag_delta),
        }
    }
}

/// The in-memory circuit being edited.  All mutation goes through the
/// editing API below.
pub struct Circuit {
    name: String,
    offset: Vec2f,
    linear_zoom: u32,
    components: Vec<Component>,
    wire_segments: Vec<WireSegment>,
    selection: Selection,
    drag_state: DragState,
    primary_button_down: bool,
    secondary_button_down: bool,
    sim_state: SimState,
}

impl View for Circuit {
    type V = CircuitView;

    closed spec fn view(&self) -> CircuitView {
        CircuitView {
            name: self.name@,
            offset: self.offset,
            linear_zoom: self.linear_zoom,
            components: self.components@,
            wire_segments: self.wire_segments@,
            selection: self.selection,
            drag_state: self.drag_state,
            primary_down: self.primary_button_down,
            secondary_down: self.secondary_button_down,
            sim_state: self.sim_state,
        }
    }
}

impl Circuit {
    /// A fresh, empty circuit with the default view.
    pub fn new() -> (r: Circuit)
        ensures
            r@.wf(),
            r@.name == new_circuit_name(),
            r@.offset == (Vec2f { x: 0i64, y: 0i64 }),
            r@.linear_zoom == default_linear_zoom(),
            r@.components.len() == 0,
            r@.wire_segments.len() == 0,
            r@.selection is Empty,
            r@.drag_state is Idle,
            r@.sim_state is Inactive,
            !r@.primary_down,
            !r@.secondary_down,
    {
        let name = new_circuit_name_exec();
        Circuit {
            name,
            offset: Vec2f { x: 0, y: 0 },
            linear_zoom: 333,
            components: Vec::new(),
            wire_segments: Vec::new(),
            selection: Selection::Empty,
            drag_state: DragState::Idle,
            primary_button_down: false,
            secondary_button_down: false,
            sim_state: SimState::Inactive,
        }
    }

    /// The circuit's display name.
    pub fn name(&self) -> (r: &str)
        ensures
            r@ == self@.name,
    {
        self.name.as_str()
    }

    /// The view offset, in fine coordinates.
    pub fn offset(&self) -> (r: Vec2f)
        ensures
            r == self@.offset,
    {
        self.offset
    }

    /// Pans the view; reports whether a redraw is needed.
    pub fn set_offset(&mut self, offset: Vec2f) -> (redraw: bool)
        requires
            old(self)@.wf(),
            offset.in_bounds(),
        ensures
            final(self)@.wf(),
            final(self)@ == (CircuitView { offset, ..old(self)@ }),
            redraw == (offset != old(self)@.offset),
    {
        let changed = !(self.offset == offset);
        self.offset = offset;
        changed
    }

    /// The position of the linear zoom control, in thousandths.
    pub fn linear_zoom(&self) -> (r: u32)
        ensures
            r == self@.linear_zoom,
    {
        self.linear_zoom
    }

    /// Moves the linear zoom control, clamping it to its range; reports
    /// whether a redraw is needed.  The rendered zoom factor is an
    /// exponential function of this value, applied by the embedding
    /// layer.
    pub fn set_linear_zoom(&mut self, zoom: u32) -> (redraw: bool)
        requires
            old(self)@.wf(),
        ensures
            final(self)@.wf(),
            final(self)@.linear_zoom == (if zoom <= LINEAR_ZOOM_MAX {
                zoom
            } else {
                LINEAR_ZOOM_MAX
            }),
            final(self)@ == (CircuitView { linear_zoom: final(self)@.linear_zoom, ..old(self)@ }),
            redraw == (final(self)@.linear_zoom != old(self)@.linear_zoom),
    {
        let new_zoom = if zoom <= LINEAR_ZOOM_MAX {
            zoom
        } else {
            LINEAR_ZOOM_MAX
        };
        let changed = new_zoom != self.linear_zoom;
        self.linear_zoom = new_zoom;
        changed
    }

    /// The placed components, in insertion order.
    pub fn components(&self) -> (r: &Vec<Component>)
        ensures
            r@ == self@.components,
    {
        &self.components
    }

    /// The drawn wire segments, in insertion order.
    pub fn wire_segments(&self) -> (r: &Vec<WireSegment>)
        ensures
            r@ == self@.wire_segments,
    {
        &self.wire_segments
    }

    /// The current selection.
    pub fn selection(&self) -> (r: &Selection)
        ensures
            r == &self@.selection,
    {
        &self.selection
    }

    /// The current simulation state.
    pub fn sim_state(&self) -> (r: &SimState)
        ensures
            r == &self@.sim_state,
    {
        &self.sim_state
    }

    /// The active rubber-band rectangle of a box selection, as the pair
    /// of its press corner and current corner, if one is being drawn.
    pub fn selection_box(&self) -> (r: Option<(Vec2f, Vec2f)>)
        requires
            self@.wf(),
        ensures
            match self@.drag_state {
                DragState::DrawingBoxSelection { drag_start, drag_delta } => r == Some(
                    (
                        drag_start,
                        Vec2f {
                            x: (drag_start.x + drag_delta.x) as i64,
                            y: (drag_start.y + drag_delta.y) as i64,
                        },
                    ),
                ),
                _ => r is None,
            },
    {
        match &self.drag_state {
            DragState::DrawingBoxSelection { drag_start, drag_delta } => Some(
                (
                    *drag_start,
                    Vec2f { x: drag_start.x + drag_delta.x, y: drag_start.y + drag_delta.y },
                ),
            ),
            _ => None,
        }
    }

    /// Places a new component at the origin and selects it.
    pub fn add_component(&mut self, kind: ComponentKind)
        requires
            old(self)@.wf(),
            kind.wf(),
        ensures
            final(self)@.wf(),
            final(self)@ == (CircuitView {
                components: final(self)@.components,
                selection: Selection::Component(old(self)@.components.len() as usize),
                drag_state: DragState::Idle,
                ..old(self)@
            }),
            final(self)@.components.len() == old(self)@.components.len() + 1,
            final(self)@.components.take(old(self)@.components.len() as int) == old(self)@.components,
            final(self)@.components.last() == (Component {
                kind,
                position: Vec2i { x: 0i32, y: 0i32 },
                rotation: Rotation::Deg0,
                mirrored: false,
                sim_anchor_wires: final(self)@.components.last().sim_anchor_wires,
                sim_drive_wire: None,
            }),
            final(self)@.components.last().sim_anchor_wires@.len() == 0,
    {
        self.selection = Selection::Component(self.components.len());
        self.drag_state = DragState::Idle;
        self.components.push(Component::new(kind));
        proof {
            assert(self@.components.take(old(self)@.components.len() as int) =~= old(self)@.components);
        }
    }
}

/// Snap radius around anchors and wire endpoints, in fine steps (two
/// logical pixels).
pub const SNAP_RADIUS: i64 = 2;

/// Whether `p` lies within the snap radius of some anchor of `c`.
pub open spec fn anchor_hit(c: Component, p: Vec2f) -> bool {
    exists|k: int|
        0 <= k < c.spec_anchors().len() && crate::math::dist_sq(
            Vec2f {
                x: ((#[trigger] c.spec_anchors()[k]).position.x * FINE_STEPS) as i64,
                y: (c.spec_anchors()[k].position.y * FINE_STEPS) as i64,
            },
            p,
        ) <= SNAP_RADIUS * SNAP_RADIUS
}

/// Whether `p` lies within the snap radius of the grid point `q`.
pub open spec fn point_hit(q: Vec2i, p: Vec2f) -> bool {
    crate::math::dist_sq(
        Vec2f { x: (q.x * FINE_STEPS) as i64, y: (q.y * FINE_STEPS) as i64 },
        p,
    ) <= SNAP_RADIUS * SNAP_RADIUS
}

/// First component index at or after `i` with an anchor under `p`.
pub open spec fn first_anchor_comp(comps: Seq<Component>, p: Vec2f, i: int) -> Option<int>
    decreases comps.len() - i,
{
    if i < 0 || i >= comps.len() {
        None
    } else if anchor_hit(comps[i], p) {
        Some(i)
    } else {
        first_anchor_comp(comps, p, i + 1)
    }
}

/// First component index at or after `i` whose bounding box contains `p`.
pub open spec fn first_bbox_comp(comps: Seq<Component>, p: Vec2f, i: int) -> Option<int>
    decreases comps.len() - i,
{
    if i < 0 || i >= comps.len() {
        None
    } else if comps[i].spec_bounding_box().spec_contains(p) {
        Some(i)
    } else {
        first_bbox_comp(comps, p, i + 1)
    }
}

/// First wire index at or after `i` (skipping `exclude`) with an endpoint
/// under `p`; the flag is true for endpoint A.
pub open spec fn first_wire_endpoint(
    s: Seq<WireSegment>,
    p: Vec2f,
    exclude: Option<usize>,
    i: int,
) -> Option<(int, bool)>
    decreases s.len() - i,
{
    if i < 0 || i >= s.len() {
        None
    } else if exclude != Some(i as usize) && point_hit(s[i].endpoint_a, p) {
        Some((i, true))
    } else if exclude != Some(i as usize) && point_hit(s[i].endpoint_b, p) {
        Some((i, false))
    } else {
        first_wire_endpoint(s, p, exclude, i + 1)
    }
}

/// First wire index at or after `i` (skipping `exclude`) whose stroke
/// contains `p`, with the sub-segment hit.
pub open spec fn first_wire_body(
    s: Seq<WireSegment>,
    p: Vec2f,
    exclude: Option<usize>,
    i: int,
) -> Option<(int, int)>
    decreases s.len() - i,
{
    if i < 0 || i >= s.len() {
        None
    } else if exclude != Some(i as usize) && s[i].spec_contains(p) is Some {
        Some((i, s[i].spec_contains(p)->0))
    } else {
        first_wire_body(s, p, exclude, i + 1)
    }
}

/// The hit-testing priority: anchors snap first, then component bodies,
/// then wire endpoints, then wire bodies; within each category the first
/// (oldest) entity wins.
pub open spec fn spec_hit_test(v: CircuitView, p: Vec2f, exclude: Option<usize>) -> HitTestResult {
    match first_anchor_comp(v.components, p, 0) {
        Some(c) => HitTestResult::ComponentAnchor(c as usize),
        None => match first_bbox_comp(v.components, p, 0) {
            Some(c) => HitTestResult::Component(c as usize),
            None => match first_wire_endpoint(v.wire_segments, p, exclude, 0) {
                Some((w, true)) => HitTestResult::WirePointA(w as usize),
                Some((w, false)) => HitTestResult::WirePointB(w as usize),
                None => match first_wire_body(v.wire_segments, p, exclude, 0) {
                    Some((w, leg)) => HitTestResult::WireSegment(w as usize, leg as usize),
                    None => HitTestResult::Miss,
                },
            },
        },
    }
}

/// A point within some component's anchor-snap radius always resolves to
/// that category, whatever other components' bodies or wires it also
/// touches.
pub proof fn lemma_hit_test_prefers_anchors(v: CircuitView, p: Vec2f, exclude: Option<usize>)
    requires
        exists|c: int| 0 <= c < v.components.len() && anchor_hit(#[trigger] v.components[c], p),
    ensures
        spec_hit_test(v, p, exclude) is ComponentAnchor,
{
    let c = choose|c: int| 0 <= c < v.components.len() && anchor_hit(#[trigger] v.components[c], p);
    lemma_first_anchor_finds(v.components, p, 0, c);
}

/// If some component at or after `i` has an anchor under `p`, the search
/// returns one.
proof fn lemma_first_anchor_finds(comps: Seq<Component>, p: Vec2f, i: int, c: int)
    requires
        0 <= i <= c < comps.len(),
        anchor_hit(comps[c], p),
    ensures
        first_anchor_comp(comps, p, i) is Some,
    decreases c - i,
{
    if i < c && !anchor_hit(comps[i], p) {
        lemma_first_anchor_finds(comps, p, i + 1, c);
    }
}

proof fn lemma_first_anchor_range(comps: Seq<Component>, p: Vec2f, i: int)
    ensures
        first_anchor_comp(comps, p, i) matches Some(c) ==> i <= c < comps.len(),
    decreases comps.len() - i,
{
    if 0 <= i < comps.len() && !anchor_hit(comps[i], p) {
        lemma_first_anchor_range(comps, p, i + 1);
    }
}

proof fn lemma_first_bbox_range(comps: Seq<Component>, p: Vec2f, i: int)
    ensures
        first_bbox_comp(comps, p, i) matches Some(c) ==> i <= c < comps.len(),
    decreases comps.len() - i,
{
    if 0 <= i < comps.len() && !comps[i].spec_bounding_box().spec_contains(p) {
        lemma_first_bbox_range(comps, p, i + 1);
    }
}

proof fn lemma_first_endpoint_range(s: Seq<WireSegment>, p: Vec2f, ex: Option<usize>, i: int)
    ensures
        first_wire_endpoint(s, p, ex, i) matches Some(h) ==> i <= h.0 < s.len(),
    decreases s.len() - i,
{
    if 0 <= i < s.len() {
        lemma_first_endpoint_range(s, p, ex, i + 1);
    }
}

proof fn lemma_first_body_range(s: Seq<WireSegment>, p: Vec2f, ex: Option<usize>, i: int)
    ensures
        match first_wire_body(s, p, ex, i) {
            Some(h) => i <= h.0 < s.len() && 0 <= h.1 <= s[h.0].midpoints@.len(),
            None => true,
        },
    decreases s.len() - i,
{
    if i < 0 || i >= s.len() {
    } else if ex != Some(i as usize) && s[i].spec_contains(p) is Some {
        crate::wire::lemma_first_leg_hit_range(s[i].spec_points(), p, 0);
        assert(s[i].spec_contains(p)->0 == crate::wire::first_leg_hit(
            s[i].spec_points(),
            p,
            0,
        )->0);
        assert(s[i].spec_points().len() == s[i].midpoints@.len() + 2);
    } else {
        lemma_first_body_range(s, p, ex, i + 1);
    }
}

/// Every index a hit names is in range; a wire-body hit's sub-segment
/// index can cut the segment's mid-point list.
pub proof fn lemma_hit_test_ranges(v: CircuitView, p: Vec2f, ex: Option<usize>)
    requires
        v.components.len() <= usize::MAX,
        v.wire_segments.len() <= usize::MAX,
    ensures
        match spec_hit_test(v, p, ex) {
            HitTestResult::Miss => true,
            HitTestResult::Component(c) => (c as int) < v.components.len(),
            HitTestResult::ComponentAnchor(c) => (c as int) < v.components.len(),
            HitTestResult::WirePointA(w) => (w as int) < v.wire_segments.len(),
            HitTestResult::WirePointB(w) => (w as int) < v.wire_segments.len(),
            HitTestResult::WireSegment(w, leg) => (w as int) < v.wire_segments.len() && (leg as int)
                <= v.wire_segments[w as int].midpoints@.len(),
        },
{
    lemma_first_anchor_range(v.components, p, 0);
    lemma_first_bbox_range(v.components, p, 0);
    lemma_first_endpoint_range(v.wire_segments, p, ex, 0);
    lemma_first_body_range(v.wire_segments, p, ex, 0);
    match first_wire_body(v.wire_segments, p, ex, 0) {
        Some(h) => {
            vstd::std_specs::vec::axiom_spec_len(&v.wire_segments[h.0].midpoints);
        },
        None => {},
    }
}

/// Whether `p` lies within the snap radius of some anchor of `c`
/// (executable).
fn comp_anchor_hit(c: &Component, p: Vec2f) -> (r: bool)
    requires
        c.wf(),
        p.in_bounds(),
    ensures
        r == anchor_hit(*c, p),
{
    proof {
        crate::component::lemma_anchor_positions_bounded(*c);
    }
    let anchors = c.anchors();
    let n = anchors.len();
    for k in 0..n
        invariant
            n == anchors@.len(),
            anchors@ == c.spec_anchors(),
            p.in_bounds(),
            forall|k2: int|
                0 <= k2 < k ==> !(crate::math::dist_sq(
                    Vec2f {
                        x: ((#[trigger] anchors@[k2]).position.x * FINE_STEPS) as i64,
                        y: (anchors@[k2].position.y * FINE_STEPS) as i64,
                    },
                    p,
                ) <= SNAP_RADIUS * SNAP_RADIUS),
            forall|k2: int|
                0 <= k2 < anchors@.len() ==> {
                    let q = (#[trigger] anchors@[k2]).position;
                    -100_000_510 <= q.x <= 100_000_510 && -100_000_510 <= q.y <= 100_000_510
                },
    {
        let q = anchors[k].position.to_vec2f();
        if crate::math::within_radius(q, p, SNAP_RADIUS) {
            return true;
        }
    }
    false
}

impl Circuit {
    /// Finds the highest-priority entity under the fine point `p`:
    /// anchors snap first, then component bodies, then wire endpoints
    /// (skipping `exclude_wire`), then wire bodies.
    pub fn hit_test(&self, p: Vec2f, exclude_wire: Option<usize>) -> (r: HitTestResult)
        requires
            self@.wf(),
            p.in_bounds(),
        ensures
            r == spec_hit_test(self@, p, exclude_wire),
    {
        let ghost comps = self@.components;
        let ghost segs = self@.wire_segments;

        let nc = self.components.len();
        for c in 0..nc
            invariant
                nc == comps.len(),
                self@.components == comps,
                self@.wire_segments == segs,
                self@.wf(),
                p.in_bounds(),
                first_anchor_comp(comps, p, 0) == first_anchor_comp(comps, p, c as int),
        {
            if comp_anchor_hit(&self.components[c], p) {
                return HitTestResult::ComponentAnchor(c);
            }
            proof {
                assert(first_anchor_comp(comps, p, c as int) == first_anchor_comp(
                    comps,
                    p,
                    c + 1 as int,
                ));
            }
        }

        for c in 0..nc
            invariant
                nc == comps.len(),
                self@.components == comps,
                self@.wire_segments == segs,
                self@.wf(),
                p.in_bounds(),
                first_anchor_comp(comps, p, 0) is None,
                first_bbox_comp(comps, p, 0) == first_bbox_comp(comps, p, c as int),
        {
            let bb = self.components[c].bounding_box();
            if bb.contains(p) {
                return HitTestResult::Component(c);
            }
            proof {
                assert(first_bbox_comp(comps, p, c as int) == first_bbox_comp(
                    comps,
                    p,
                    c + 1 as int,
                ));
            }
        }

        let ns = self.wire_segments.len();
        for i in 0..ns
            invariant
                ns == segs.len(),
                self@.components == comps,
                self@.wire_segments == segs,
                self@.wf(),
                p.in_bounds(),
                first_anchor_comp(comps, p, 0) is None,
                first_bbox_comp(comps, p, 0) is None,
                first_wire_endpoint(segs, p, exclude_wire, 0) == first_wire_endpoint(
                    segs,
                    p,
                    exclude_wire,
                    i as int,
                ),
        {
            let excluded = match exclude_wire {
                Some(e) => e == i,
                None => false,
            };
            if !excluded {
                let a = self.wire_segments[i].endpoint_a.to_vec2f();
                if crate::math::within_radius(a, p, SNAP_RADIUS) {
                    return HitTestResult::WirePointA(i);
                }
                let b = self.wire_segments[i].endpoint_b.to_vec2f();
                if crate::math::within_radius(b, p, SNAP_RADIUS) {
                    return HitTestResult::WirePointB(i);
                }
            }
            proof {
                assert(first_wire_endpoint(segs, p, exclude_wire, i as int) == first_wire_endpoint(
                    segs,
                    p,
                    exclude_wire,
                    i + 1 as int,
                ));
            }
        }

        for i in 0..ns
            invariant
                ns == segs.len(),
                self@.components == comps,
                self@.wire_segments == segs,
                self@.wf(),
                p.in_bounds(),
                first_anchor_comp(comps, p, 0) is None,
                first_bbox_comp(comps, p, 0) is None,
                first_wire_endpoint(segs, p, exclude_wire, 0) is None,
                first_wire_body(segs, p, exclude_wire, 0) == first_wire_body(
                    segs,
                    p,
                    exclude_wire,
                    i as int,
                ),
        {
            let excluded = match exclude_wire {
                Some(e) => e == i,
                None => false,
            };
            if !excluded {
                match self.wire_segments[i].contains(p) {
                    Some(leg) => {
                        return HitTestResult::WireSegment(i, leg);
                    },
                    None => {},
                }
            }
            proof {
                assert(first_wire_body(segs, p, exclude_wire, i as int) == first_wire_body(
                    segs,
                    p,
                    exclude_wire,
                    i + 1 as int,
                ));
            }
        }

        HitTestResult::Miss
    }
}

/// The grid point `p` shifted by `d`.
pub open spec fn translated_pt(p: Vec2i, d: Vec2i) -> Vec2i {
    Vec2i { x: (p.x + d.x) as i32, y: (p.y + d.y) as i32 }
}

/// Shifting `p` by `d` stays within the working range.
pub open spec fn can_translate_pt(p: Vec2i, d: Vec2i) -> bool {
    -COORD_LIMIT <= p.x + d.x <= COORD_LIMIT && -COORD_LIMIT <= p.y + d.y <= COORD_LIMIT
}

/// Every selected element, moved by `d`, stays within the working range.
pub open spec fn move_ok(v: CircuitView, d: Vec2i) -> bool {
    &&& forall|c: int|
        0 <= c < v.components.len() && v.selection.spec_contains_component(c as usize)
            ==> can_translate_pt((#[trigger] v.components[c]).position, d)
    &&& forall|i: int|
        0 <= i < v.wire_segments.len() && v.selection.spec_contains_wire_segment(i as usize) ==> {
            let s = #[trigger] v.wire_segments[i];
            &&& can_translate_pt(s.endpoint_a, d)
            &&& can_translate_pt(s.endpoint_b, d)
            &&& forall|m: int|
                0 <= m < s.midpoints@.len() ==> can_translate_pt(#[trigger] s.midpoints@[m], d)
        }
    &&& (v.selection matches Selection::Multi { center, .. } ==> -FINE_LIMIT <= center.x + 10 * d.x
        <= FINE_LIMIT && -FINE_LIMIT <= center.y + 10 * d.y <= FINE_LIMIT)
}

/// How `move_selection` relates the circuit before and after: every
/// selected component and wire segment is translated by `d` (a
/// multi-selection's pivot moves with them), everything else is
/// unchanged.
pub open spec fn moved_from(pre: CircuitView, post: CircuitView, d: Vec2i) -> bool {
    &&& post.components.len() == pre.components.len()
    &&& forall|c: int|
        0 <= c < pre.components.len() && pre.selection.spec_contains_component(c as usize) ==> {
            let x = #[trigger] pre.components[c];
            let y = post.components[c];
            y == (Component { position: translated_pt(x.position, d), ..x })
        }
    &&& forall|c: int|
        0 <= c < pre.components.len() && !pre.selection.spec_contains_component(c as usize)
            ==> #[trigger] post.components[c] == pre.components[c]
    &&& post.wire_segments.len() == pre.wire_segments.len()
    &&& forall|i: int|
        0 <= i < pre.wire_segments.len() && pre.selection.spec_contains_wire_segment(i as usize)
            ==> {
            let x = #[trigger] pre.wire_segments[i];
            let y = post.wire_segments[i];
            &&& y.endpoint_a == translated_pt(x.endpoint_a, d)
            &&& y.endpoint_b == translated_pt(x.endpoint_b, d)
            &&& y.midpoints@ == x.midpoints@.map(|m: int, q: Vec2i| translated_pt(q, d))
            &&& y.sim_wire == x.sim_wire
        }
    &&& forall|i: int|
        0 <= i < pre.wire_segments.len() && !pre.selection.spec_contains_wire_segment(i as usize)
            ==> #[trigger] post.wire_segments[i] == pre.wire_segments[i]
    &&& match (pre.selection, post.selection) {
        (Selection::Empty, Selection::Empty) => true,
        (Selection::Component(a), Selection::Component(b)) => a == b,
        (Selection::WireSegment(a), Selection::WireSegment(b)) => a == b,
        (
            Selection::Multi { components: c1, wire_segments: w1, center: p1 },
            Selection::Multi { components: c2, wire_segments: w2, center: p2 },
        ) => c1 == c2 && w1 == w2 && p2.x == p1.x + 10 * d.x && p2.y == p1.y + 10 * d.y,
        _ => false,
    }
    &&& post.name == pre.name
    &&& post.offset == pre.offset
    &&& post.linear_zoom == pre.linear_zoom
    &&& post.drag_state == pre.drag_state
    &&& post.primary_down == pre.primary_down
    &&& post.secondary_down == pre.secondary_down
    &&& post.sim_state == pre.sim_state
}

/// Moving a selection by `d` and then by `-d` restores every member's
/// original position exactly: every component position, every wire
/// endpoint and mid-point, and the multi-selection pivot.
pub proof fn lemma_move_selection_roundtrip(
    v0: CircuitView,
    v1: CircuitView,
    v2: CircuitView,
    d: Vec2i,
)
    requires
        v0.wf(),
        move_ok(v0, d),
        -COORD_LIMIT <= d.x <= COORD_LIMIT,
        -COORD_LIMIT <= d.y <= COORD_LIMIT,
        moved_from(v0, v1, d),
        moved_from(v1, v2, Vec2i { x: (-d.x) as i32, y: (-d.y) as i32 }),
    ensures
        forall|c: int|
            0 <= c < v0.components.len() ==> (#[trigger] v2.components[c]).position
                == v0.components[c].position,
        forall|i: int|
            0 <= i < v0.wire_segments.len() ==> {
                let x = #[trigger] v0.wire_segments[i];
                let z = v2.wire_segments[i];
                z.endpoint_a == x.endpoint_a && z.endpoint_b == x.endpoint_b && z.midpoints@
                    == x.midpoints@
            },
        v0.selection matches Selection::Multi { center: p0, .. } ==> v2.selection matches
            Selection::Multi { center: p2, .. } && p2 == p0,
{
    let nd = Vec2i { x: (-d.x) as i32, y: (-d.y) as i32 };
    assert forall|i: int| 0 <= i < v0.wire_segments.len() implies {
        let x = #[trigger] v0.wire_segments[i];
        let z = v2.wire_segments[i];
        z.endpoint_a == x.endpoint_a && z.endpoint_b == x.endpoint_b && z.midpoints@
            == x.midpoints@
    } by {
        let x = v0.wire_segments[i];
        let z = v2.wire_segments[i];
        if v0.selection.spec_contains_wire_segment(i as usize) {
            assert(v1.selection.spec_contains_wire_segment(i as usize));
            assert(z.midpoints@ =~= x.midpoints@);
        }
    }
}

/// Builds the translated copy of a wire segment.
fn translate_segment(seg: &WireSegment, d: Vec2i) -> (r: WireSegment)
    requires
        seg.wf(),
        can_translate_pt(seg.endpoint_a, d),
        can_translate_pt(seg.endpoint_b, d),
        forall|m: int|
            0 <= m < seg.midpoints@.len() ==> can_translate_pt(#[trigger] seg.midpoints@[m], d),
    ensures
        r.endpoint_a == translated_pt(seg.endpoint_a, d),
        r.endpoint_b == translated_pt(seg.endpoint_b, d),
        r.midpoints@ == seg.midpoints@.map(|m: int, q: Vec2i| translated_pt(q, d)),
        r.sim_wire == seg.sim_wire,
        r.wf(),
{
    let mut mids: Vec<Vec2i> = Vec::new();
    let n = seg.midpoints.len();
    for m in 0..n
        invariant
            n == seg.midpoints@.len(),
            seg.wf(),
            forall|k: int|
                0 <= k < seg.midpoints@.len() ==> can_translate_pt(#[trigger] seg.midpoints@[k], d),
            mids@ == seg.midpoints@.take(m as int).map(|k: int, q: Vec2i| translated_pt(q, d)),
    {
        let q = seg.midpoints[m];
        mids.push(Vec2i { x: q.x + d.x, y: q.y + d.y });
        proof {
            assert(mids@ =~= seg.midpoints@.take(m + 1 as int).map(
                |k: int, q2: Vec2i| translated_pt(q2, d),
            ));
        }
    }
    proof {
        assert(seg.midpoints@.take(n as int) =~= seg.midpoints@);
    }
    WireSegment {
        endpoint_a: Vec2i { x: seg.endpoint_a.x + d.x, y: seg.endpoint_a.y + d.y },
        midpoints: mids,
        endpoint_b: Vec2i { x: seg.endpoint_b.x + d.x, y: seg.endpoint_b.y + d.y },
        sim_wire: seg.sim_wire,
    }
}

impl Circuit {
    /// Translates every member of the selection by `d` grid units; a
    /// multi-selection's pivot follows.
    pub fn move_selection(&mut self, delta: Vec2i)
        requires
            old(self)@.wf(),
            move_ok(old(self)@, delta),
        ensures
            final(self)@.wf(),
            moved_from(old(self)@, final(self)@, delta),
    {
        let ghost pre = self@;
        let n_comps = self.components.len();
        let n_segs = self.wire_segments.len();
        let mut sel = Selection::Empty;
        core::mem::swap(&mut sel, &mut self.selection);
        match sel {
            Selection::Empty => {
                self.selection = Selection::Empty;
                proof {
                    assert(moved_from(pre, self@, delta));
                }
            },
            Selection::Component(c) => {
                let mut tmp = Component::new(ComponentKind::new_and_gate());
                self.components.set_and_swap(c, &mut tmp);
                tmp.position = Vec2i { x: tmp.position.x + delta.x, y: tmp.position.y + delta.y };
                self.components.set_and_swap(c, &mut tmp);
                self.selection = Selection::Component(c);
                proof {
                    assert(self@.components =~= pre.components.update(
                        c as int,
                        Component {
                            position: translated_pt(pre.components[c as int].position, delta),
                            ..pre.components[c as int]
                        },
                    ));
                    assert(self@.wf());
                    assert(self@.components.len() == pre.components.len());
                    assert forall|c2: int|
                        0 <= c2 < pre.components.len() && pre.selection.spec_contains_component(
                            c2 as usize,
                        ) implies {
                        let x = #[trigger] pre.components[c2];
                        let y = self@.components[c2];
                        y == (Component { position: translated_pt(x.position, delta), ..x })
                    } by {
                        assert(c2 == c as int);
                    }
                    assert forall|c2: int|
                        0 <= c2 < pre.components.len() && !pre.selection.spec_contains_component(
                            c2 as usize,
                        ) implies #[trigger] self@.components[c2] == pre.components[c2] by {
                        assert(c2 != c as int);
                    }
                    assert(moved_from(pre, self@, delta));
                }
            },
            Selection::WireSegment(s) => {
                let moved = translate_segment(&self.wire_segments[s], delta);
                self.wire_segments.set(s, moved);
                self.selection = Selection::WireSegment(s);
                proof {
                    assert(self@.wf());
                    assert(moved_from(pre, self@, delta));
                }
            },
            Selection::Multi { components, wire_segments, center } => {
                let ghost mid = self@;
                let nc = components.len();
                for k in 0..nc
                    invariant
                        nc == components@.len(),
                        index_list_wf(components@, self@.components.len() as int),
                        self@ == (CircuitView { components: self@.components, ..mid }),
                        self@.components.len() == pre.components.len(),
                        forall|c2: int|
                            0 <= c2 < pre.components.len() && !components@.take(k as int).contains(
                                c2 as usize,
                            ) ==> #[trigger] self@.components[c2] == pre.components[c2],
                        forall|kk: int|
                            0 <= kk < k ==> #[trigger] self@.components[components@[kk] as int] == (
                            Component {
                                position: translated_pt(
                                    pre.components[components@[kk] as int].position,
                                    delta,
                                ),
                                ..pre.components[components@[kk] as int]
                            }),
                        forall|c2: int|
                            0 <= c2 < pre.components.len() && components@.contains(c2 as usize)
                                ==> can_translate_pt((#[trigger] pre.components[c2]).position, delta),
                        forall|c2: int|
                            0 <= c2 < pre.components.len() ==> (#[trigger] pre.components[c2]).wf(),
                {
                    let c = components[k];
                    proof {
                        assert(components@.contains(components@[k as int]));
                        assert(index_list_unique(components@, k as int));
                        assert(!components@.take(k as int).contains(c)) by {
                            if components@.take(k as int).contains(c) {
                                let kk = choose|kk: int|
                                    0 <= kk < k && components@.take(k as int)[kk] == c;
                                assert(components@[kk] == components@[k as int]);
                            }
                        }
                    }
                    let mut tmp = Component::new(ComponentKind::new_and_gate());
                    self.components.set_and_swap(c, &mut tmp);
                    tmp.position = Vec2i {
                        x: tmp.position.x + delta.x,
                        y: tmp.position.y + delta.y,
                    };
                    self.components.set_and_swap(c, &mut tmp);
                    proof {
                        assert(components@.take(k + 1 as int) =~= components@.take(k as int).push(
                            components@[k as int],
                        ));
                        assert(components@.take(k + 1 as int)[k as int] == c);
                    }
                }
                proof {
                    assert(forall|c2: int|
                        0 <= c2 < pre.components.len() && !components@.contains(c2 as usize)
                            ==> #[trigger] self@.components[c2] == pre.components[c2]) by {
                        assert(components@.take(nc as int) =~= components@);
                    }
                }

                let ghost mid2 = self@;
                let ns = wire_segments.len();
                for k in 0..ns
                    invariant
                        ns == wire_segments@.len(),
                        index_list_wf(wire_segments@, self@.wire_segments.len() as int),
                        self@ == (CircuitView { wire_segments: self@.wire_segments, ..mid2 }),
                        self@.wire_segments.len() == pre.wire_segments.len(),
                        forall|i2: int|
                            0 <= i2 < pre.wire_segments.len() && !wire_segments@.take(
                                k as int,
                            ).contains(i2 as usize) ==> #[trigger] self@.wire_segments[i2]
                                == pre.wire_segments[i2],
                        forall|kk: int|
                            0 <= kk < k ==> {
                                let x = pre.wire_segments[wire_segments@[kk] as int];
                                let y = #[trigger] self@.wire_segments[wire_segments@[kk] as int];
                                &&& y.endpoint_a == translated_pt(x.endpoint_a, delta)
                                &&& y.endpoint_b == translated_pt(x.endpoint_b, delta)
                                &&& y.midpoints@ == x.midpoints@.map(
                                    |m: int, q: Vec2i| translated_pt(q, delta),
                                )
                                &&& y.sim_wire == x.sim_wire
                                &&& y.wf()
                            },
                        forall|i2: int|
                            0 <= i2 < pre.wire_segments.len() && wire_segments@.contains(
                                i2 as usize,
                            ) ==> {
                                let s2 = #[trigger] pre.wire_segments[i2];
                                &&& can_translate_pt(s2.endpoint_a, delta)
                                &&& can_translate_pt(s2.endpoint_b, delta)
                                &&& forall|m: int|
                                    0 <= m < s2.midpoints@.len() ==> can_translate_pt(
                                        #[trigger] s2.midpoints@[m],
                                        delta,
                                    )
                            },
                        forall|i2: int|
                            0 <= i2 < pre.wire_segments.len() ==> (
                            #[trigger] pre.wire_segments[i2]).wf(),
                {
                    let i = wire_segments[k];
                    proof {
                        assert(wire_segments@.contains(wire_segments@[k as int]));
                        assert(index_list_unique(wire_segments@, k as int));
                        assert(!wire_segments@.take(k as int).contains(i)) by {
                            if wire_segments@.take(k as int).contains(i) {
                                let kk = choose|kk: int|
                                    0 <= kk < k && wire_segments@.take(k as int)[kk] == i;
                                assert(wire_segments@[kk] == wire_segments@[k as int]);
                            }
                        }
                    }
                    let moved = translate_segment(&self.wire_segments[i], delta);
                    self.wire_segments.set(i, moved);
                    proof {
                        assert(wire_segments@.take(k + 1 as int) =~= wire_segments@.take(
                            k as int,
                        ).push(wire_segments@[k as int]));
                        assert(wire_segments@.take(k + 1 as int)[k as int] == i);
                    }
                }
                proof {
                    assert(forall|i2: int|
                        0 <= i2 < pre.wire_segments.len() && !wire_segments@.contains(i2 as usize)
                            ==> #[trigger] self@.wire_segments[i2] == pre.wire_segments[i2]) by {
                        assert(wire_segments@.take(ns as int) =~= wire_segments@);
                    }
                }

                let new_center = Vec2f {
                    x: center.x + 10 * (delta.x as i64),
                    y: center.y + 10 * (delta.y as i64),
                };
                self.selection = Selection::Multi { components, wire_segments, center: new_center };
                proof {
                    assert forall|c2: int|
                        0 <= c2 < pre.components.len() && components@.contains(c2 as usize) implies {
                        let x = #[trigger] pre.components[c2];
                        let y = self@.components[c2];
                        y == (Component { position: translated_pt(x.position, delta), ..x })
                            && y.wf()
                    } by {
                        let kk = choose|kk: int|
                            0 <= kk < components@.len() && components@[kk] == c2 as usize;
                        assert(self@.components[components@[kk] as int] == (Component {
                            position: translated_pt(pre.components[components@[kk] as int].position, delta),
                            ..pre.components[components@[kk] as int]
                        }));
                    }
                    assert forall|i2: int|
                        0 <= i2 < pre.wire_segments.len() && wire_segments@.contains(i2 as usize)
                        implies {
                        let x = #[trigger] pre.wire_segments[i2];
                        let y = self@.wire_segments[i2];
                        &&& y.endpoint_a == translated_pt(x.endpoint_a, delta)
                        &&& y.endpoint_b == translated_pt(x.endpoint_b, delta)
                        &&& y.midpoints@ == x.midpoints@.map(
                            |m: int, q: Vec2i| translated_pt(q, delta),
                        )
                        &&& y.sim_wire == x.sim_wire
                        &&& y.wf()
                    } by {
                        let kk = choose|kk: int|
                            0 <= kk < wire_segments@.len() && wire_segments@[kk] == i2 as usize;
                        assert((wire_segments@[kk] as int) < pre.wire_segments.len());
                    }
                    assert(self@.wf());
                    assert(moved_from(pre, self@, delta));
                }
            },
        }
    }
}

/// The per-point transform applied by rotate and mirror operations.
#[derive(Clone, Copy, Debug, PartialEq, Eq, Structural)]
pub enum PointTransform {
    RotateCcw,
    RotateCw,
    MirrorX,
}

/// A wire segment's own pivot: the midpoint of its two endpoints, in fine
/// coordinates (exact, since fine steps are even).
pub open spec fn seg_center(s: WireSegment) -> Vec2f {
    Vec2f {
        x: (5 * (s.endpoint_a.x + s.endpoint_b.x)) as i64,
        y: (5 * (s.endpoint_a.y + s.endpoint_b.y)) as i64,
    }
}

/// The fine X coordinate of grid point `p` transformed by `t` about
/// `center`, before snapping back to the grid.
pub open spec fn xform_fine_x(t: PointTransform, center: Vec2f, p: Vec2i) -> int {
    let rx = FINE_STEPS * p.x - center.x;
    let ry = FINE_STEPS * p.y - center.y;
    (match t {
        PointTransform::RotateCcw => -ry,
        PointTransform::RotateCw => ry,
        PointTransform::MirrorX => -rx,
    }) + center.x
}

/// The fine Y coordinate of grid point `p` transformed by `t` about
/// `center`, before snapping back to the grid.
pub open spec fn xform_fine_y(t: PointTransform, center: Vec2f, p: Vec2i) -> int {
    let rx = FINE_STEPS * p.x - center.x;
    let ry = FINE_STEPS * p.y - center.y;
    (match t {
        PointTransform::RotateCcw => rx,
        PointTransform::RotateCw => -rx,
        PointTransform::MirrorX => ry,
    }) + center.y
}

/// Grid point `p` transformed by `t` about `center` and snapped down to
/// the grid.
pub open spec fn transformed_pt(t: PointTransform, center: Vec2f, p: Vec2i) -> Vec2i {
    Vec2i {
        x: (xform_fine_x(t, center, p) / (FINE_STEPS as int)) as i32,
        y: (xform_fine_y(t, center, p) / (FINE_STEPS as int)) as i32,
    }
}

/// The transformed point stays within the working range.
pub open spec fn can_transform_pt(t: PointTransform, center: Vec2f, p: Vec2i) -> bool {
    &&& -COORD_LIMIT <= xform_fine_x(t, center, p) / (FINE_STEPS as int) <= COORD_LIMIT
    &&& -COORD_LIMIT <= xform_fine_y(t, center, p) / (FINE_STEPS as int) <= COORD_LIMIT
}

/// The component-local effect of a transform: rotate operations step the
/// rotation, mirroring flips the mirror flag and reflects the rotation.
pub open spec fn xformed_component(c: Component, t: PointTransform) -> Component {
    match t {
        PointTransform::RotateCcw => crate::component::spec_rotated_ccw(c),
        PointTransform::RotateCw => crate::component::spec_rotated_cw(c),
        PointTransform::MirrorX => crate::component::spec_mirrored(c),
    }
}

/// Every selected element can be transformed without leaving the working
/// range.
pub open spec fn transform_ok(v: CircuitView, t: PointTransform) -> bool {
    match v.selection {
        Selection::Empty => true,
        Selection::Component(_) => true,
        Selection::WireSegment(s) => {
            let seg = v.wire_segments[s as int];
            forall|m: int|
                0 <= m < seg.spec_points().len() ==> can_transform_pt(
                    t,
                    seg_center(seg),
                    #[trigger] seg.spec_points()[m],
                )
        },
        Selection::Multi { center, .. } => {
            &&& forall|c: int|
                0 <= c < v.components.len() && v.selection.spec_contains_component(c as usize)
                    ==> can_transform_pt(t, center, (#[trigger] v.components[c]).position)
            &&& forall|i: int, m: int|
                0 <= i < v.wire_segments.len() && v.selection.spec_contains_wire_segment(i as usize)
                    && 0 <= m < v.wire_segments[i].spec_points().len() ==> can_transform_pt(
                    t,
                    center,
                    (#[trigger] v.wire_segments[i].spec_points()[m]),
                )
        },
    }
}

/// How the rotate and mirror operations relate the circuit before and
/// after: a selected single component changes orientation in place; a
/// selected single wire segment has its points transformed about its own
/// pivot; a multi-selection transforms every member about the selection
/// pivot; everything else is unchanged.
pub open spec fn transformed_from(pre: CircuitView, post: CircuitView, t: PointTransform) -> bool {
    &&& post.components.len() == pre.components.len()
    &&& post.wire_segments.len() == pre.wire_segments.len()
    &&& match pre.selection {
        Selection::Empty => post.components == pre.components && post.wire_segments
            == pre.wire_segments,
        Selection::Component(c) => {
            &&& post.components[c as int] == xformed_component(pre.components[c as int], t)
            &&& forall|c2: int|
                0 <= c2 < pre.components.len() && c2 != c as int ==> #[trigger] post.components[c2]
                    == pre.components[c2]
            &&& post.wire_segments == pre.wire_segments
        },
        Selection::WireSegment(s) => {
            &&& post.components == pre.components
            &&& seg_transformed(
                pre.wire_segments[s as int],
                post.wire_segments[s as int],
                t,
                seg_center(pre.wire_segments[s as int]),
            )
            &&& forall|i2: int|
                0 <= i2 < pre.wire_segments.len() && i2 != s as int
                    ==> #[trigger] post.wire_segments[i2] == pre.wire_segments[i2]
        },
        Selection::Multi { center, .. } => {
            &&& forall|c2: int|
                0 <= c2 < pre.components.len() && pre.selection.spec_contains_component(
                    c2 as usize,
                ) ==> {
                    let x = #[trigger] pre.components[c2];
                    post.components[c2] == (Component {
                        position: transformed_pt(t, center, x.position),
                        ..xformed_component(x, t)
                    })
                }
            &&& forall|c2: int|
                0 <= c2 < pre.components.len() && !pre.selection.spec_contains_component(
                    c2 as usize,
                ) ==> #[trigger] post.components[c2] == pre.components[c2]
            &&& forall|i2: int|
                0 <= i2 < pre.wire_segments.len() && pre.selection.spec_contains_wire_segment(
                    i2 as usize,
                ) ==> seg_transformed(
                    pre.wire_segments[i2],
                    (#[trigger] post.wire_segments[i2]),
                    t,
                    center,
                )
            &&& forall|i2: int|
                0 <= i2 < pre.wire_segments.len() && !pre.selection.spec_contains_wire_segment(
                    i2 as usize,
                ) ==> #[trigger] post.wire_segments[i2] == pre.wire_segments[i2]
        },
    }
    &&& post.selection == pre.selection
    &&& post.name == pre.name
    &&& post.offset == pre.offset
    &&& post.linear_zoom == pre.linear_zoom
    &&& post.drag_state == pre.drag_state
    &&& post.primary_down == pre.primary_down
    &&& post.secondary_down == pre.secondary_down
    &&& post.sim_state == pre.sim_state
}

/// The second segment is the first with every point transformed by `t`
/// about `center`; the cached simulator wire is kept.
pub open spec fn seg_transformed(
    x: WireSegment,
    y: WireSegment,
    t: PointTransform,
    center: Vec2f,
) -> bool {
    &&& y.endpoint_a == transformed_pt(t, center, x.endpoint_a)
    &&& y.endpoint_b == transformed_pt(t, center, x.endpoint_b)
    &&& y.midpoints@ == x.midpoints@.map(|m: int, q: Vec2i| transformed_pt(t, center, q))
    &&& y.sim_wire == x.sim_wire
}

/// Transforms one grid point about `center`.
fn xform_pt_exec(t: PointTransform, center: Vec2f, p: Vec2i) -> (r: Vec2i)
    requires
        center.in_bounds(),
        p.in_bounds(),
        can_transform_pt(t, center, p),
    ensures
        r == transformed_pt(t, center, p),
        r.in_bounds(),
{
    let rx: i64 = 10 * (p.x as i64) - center.x;
    let ry: i64 = 10 * (p.y as i64) - center.y;
    let tx: i64 = match t {
        PointTransform::RotateCcw => -ry,
        PointTransform::RotateCw => ry,
        PointTransform::MirrorX => -rx,
    };
    let ty: i64 = match t {
        PointTransform::RotateCcw => rx,
        PointTransform::RotateCw => -rx,
        PointTransform::MirrorX => ry,
    };
    let qx: i64 = tx + center.x;
    let qy: i64 = ty + center.y;
    let fx = crate::math::floor_unit(qx);
    let fy = crate::math::floor_unit(qy);
    proof {
        assert(fx as int == qx as int / 10 && fy as int == qy as int / 10) by {
            assert(10 * (fx as int) <= qx < 10 * (fx as int + 1));
            assert(10 * (fy as int) <= qy < 10 * (fy as int + 1));
        }
    }
    Vec2i { x: fx as i32, y: fy as i32 }
}

/// Builds the transformed copy of a wire segment.
fn transform_segment(seg: &WireSegment, t: PointTransform, center: Vec2f) -> (r: WireSegment)
    requires
        seg.wf(),
        center.in_bounds(),
        forall|m: int|
            0 <= m < seg.spec_points().len() ==> can_transform_pt(
                t,
                center,
                #[trigger] seg.spec_points()[m],
            ),
    ensures
        seg_transformed(*seg, r, t, center),
        r.wf(),
{
    let ghost pts = seg.spec_points();
    proof {
        assert(pts[0] == seg.endpoint_a);
        assert(pts[pts.len() - 1] == seg.endpoint_b);
        assert(forall|m: int|
            0 <= m < seg.midpoints@.len() ==> #[trigger] seg.midpoints@[m] == pts[m + 1]);
    }
    let mut mids: Vec<Vec2i> = Vec::new();
    let n = seg.midpoints.len();
    for m in 0..n
        invariant
            n == seg.midpoints@.len(),
            seg.wf(),
            center.in_bounds(),
            forall|k: int|
                0 <= k < seg.midpoints@.len() ==> can_transform_pt(
                    t,
                    center,
                    #[trigger] seg.midpoints@[k],
                ),
            mids@ == seg.midpoints@.take(m as int).map(
                |k: int, q: Vec2i| transformed_pt(t, center, q),
            ),
    {
        let q = seg.midpoints[m];
        mids.push(xform_pt_exec(t, center, q));
        proof {
            assert(mids@ =~= seg.midpoints@.take(m + 1 as int).map(
                |k: int, q2: Vec2i| transformed_pt(t, center, q2),
            ));
        }
    }
    proof {
        assert(seg.midpoints@.take(n as int) =~= seg.midpoints@);
    }
    WireSegment {
        endpoint_a: xform_pt_exec(t, center, seg.endpoint_a),
        midpoints: mids,
        endpoint_b: xform_pt_exec(t, center, seg.endpoint_b),
        sim_wire: seg.sim_wire,
    }
}

impl Circuit {
    /// Applies the per-point transform `t` to the whole selection, about
    /// a single wire's own pivot or the multi-selection pivot.
    #[verifier::rlimit(100)]
    #[verifier::spinoff_prover]
    fn transform_selection(&mut self, t: PointTransform)
        requires
            old(self)@.wf(),
            transform_ok(old(self)@, t),
        ensures
            final(self)@.wf(),
            transformed_from(old(self)@, final(self)@, t),
    {
        let ghost pre = self@;
        let n_comps = self.components.len();
        let n_segs = self.wire_segments.len();
        let mut sel = Selection::Empty;
        core::mem::swap(&mut sel, &mut self.selection);
        match sel {
            Selection::Empty => {
                self.selection = Selection::Empty;
            },
            Selection::Component(c) => {
                let mut tmp = Component::new(ComponentKind::new_and_gate());
                self.components.set_and_swap(c, &mut tmp);
                match t {
                    PointTransform::RotateCcw => {
                        tmp.rotation = tmp.rotation.next();
                    },
                    PointTransform::RotateCw => {
                        tmp.rotation = tmp.rotation.prev();
                    },
                    PointTransform::MirrorX => {
                        tmp.mirrored = !tmp.mirrored;
                        tmp.rotation = tmp.rotation.mirror();
                    },
                }
                self.components.set_and_swap(c, &mut tmp);
                self.selection = Selection::Component(c);
                proof {
                    assert(self@.components =~= pre.components.update(
                        c as int,
                        xformed_component(pre.components[c as int], t),
                    ));
                }
            },
            Selection::WireSegment(s) => {
                let a = self.wire_segments[s].endpoint_a;
                let b = self.wire_segments[s].endpoint_b;
                let center = Vec2f {
                    x: 5 * ((a.x as i64) + (b.x as i64)),
                    y: 5 * ((a.y as i64) + (b.y as i64)),
                };
                let moved = transform_segment(&self.wire_segments[s], t, center);
                self.wire_segments.set(s, moved);
                self.selection = Selection::WireSegment(s);
            },
            Selection::Multi { components, wire_segments, center } => {
                let ghost mid = self@;
                let nc = components.len();
                for k in 0..nc
                    invariant
                        nc == components@.len(),
                        index_list_wf(components@, self@.components.len() as int),
                        center.in_bounds(),
                        self@ == (CircuitView { components: self@.components, ..mid }),
                        self@.components.len() == pre.components.len() <= usize::MAX,
                        forall|c2: int|
                            0 <= c2 < pre.components.len() && !components@.take(k as int).contains(
                                c2 as usize,
                            ) ==> #[trigger] self@.components[c2] == pre.components[c2],
                        forall|kk: int|
                            0 <= kk < k ==> #[trigger] self@.components[components@[kk] as int] == (
                            Component {
                                position: transformed_pt(
                                    t,
                                    center,
                                    pre.components[components@[kk] as int].position,
                                ),
                                ..xformed_component(pre.components[components@[kk] as int], t)
                            }),
                        forall|c2: int|
                            0 <= c2 < pre.components.len() && components@.contains(c2 as usize)
                                ==> can_transform_pt(
                                t,
                                center,
                                (#[trigger] pre.components[c2]).position,
                            ),
                        forall|c2: int|
                            0 <= c2 < pre.components.len() ==> (#[trigger] pre.components[c2]).wf(),
                {
                    let c = components[k];
                    proof {
                        assert(components@.contains(components@[k as int]));
                        assert(index_list_unique(components@, k as int));
                        assert(!components@.take(k as int).contains(c)) by {
                            if components@.take(k as int).contains(c) {
                                let kk = choose|kk: int|
                                    0 <= kk < k && components@.take(k as int)[kk] == c;
                                assert(components@[kk] == components@[k as int]);
                            }
                        }
                    }
                    let mut tmp = Component::new(ComponentKind::new_and_gate());
                    self.components.set_and_swap(c, &mut tmp);
                    tmp.position = xform_pt_exec(t, center, tmp.position);
                    match t {
                        PointTransform::RotateCcw => {
                            tmp.rotation = tmp.rotation.next();
                        },
                        PointTransform::RotateCw => {
                            tmp.rotation = tmp.rotation.prev();
                        },
                        PointTransform::MirrorX => {
                            tmp.mirrored = !tmp.mirrored;
                            tmp.rotation = tmp.rotation.mirror();
                        },
                    }
                    self.components.set_and_swap(c, &mut tmp);
                    proof {
                        assert(components@.take(k + 1 as int) =~= components@.take(k as int).push(
                            components@[k as int],
                        ));
                        assert(components@.take(k + 1 as int)[k as int] == c);
                    }
                }
                proof {
                    assert(forall|c2: int|
                        0 <= c2 < pre.components.len() && !components@.contains(c2 as usize)
                            ==> #[trigger] self@.components[c2] == pre.components[c2]) by {
                        assert(components@.take(nc as int) =~= components@);
                    }
                }

                let ghost mid2 = self@;
                let ns = wire_segments.len();
                for k in 0..ns
                    invariant
                        ns == wire_segments@.len(),
                        index_list_wf(wire_segments@, self@.wire_segments.len() as int),
                        center.in_bounds(),
                        self@ == (CircuitView { wire_segments: self@.wire_segments, ..mid2 }),
                        self@.wire_segments.len() == pre.wire_segments.len() <= usize::MAX,
                        forall|i2: int|
                            0 <= i2 < pre.wire_segments.len() && !wire_segments@.take(
                                k as int,
                            ).contains(i2 as usize) ==> #[trigger] self@.wire_segments[i2]
                                == pre.wire_segments[i2],
                        forall|kk: int|
                            0 <= kk < k ==> seg_transformed(
                                pre.wire_segments[wire_segments@[kk] as int],
                                (#[trigger] self@.wire_segments[wire_segments@[kk] as int]),
                                t,
                                center,
                            ) && self@.wire_segments[wire_segments@[kk] as int].wf(),
                        forall|i2: int, m: int|
                            0 <= i2 < pre.wire_segments.len() && wire_segments@.contains(
                                i2 as usize,
                            ) && 0 <= m < pre.wire_segments[i2].spec_points().len()
                                ==> can_transform_pt(
                                t,
                                center,
                                (#[trigger] pre.wire_segments[i2].spec_points()[m]),
                            ),
                        forall|i2: int|
                            0 <= i2 < pre.wire_segments.len() ==> (
                            #[trigger] pre.wire_segments[i2]).wf(),
                {
                    let i = wire_segments[k];
                    proof {
                        assert(wire_segments@.contains(wire_segments@[k as int]));
                        assert(index_list_unique(wire_segments@, k as int));
                        assert(!wire_segments@.take(k as int).contains(i)) by {
                            if wire_segments@.take(k as int).contains(i) {
                                let kk = choose|kk: int|
                                    0 <= kk < k && wire_segments@.take(k as int)[kk] == i;
                                assert(wire_segments@[kk] == wire_segments@[k as int]);
                            }
                        }
                    }
                    let moved = transform_segment(&self.wire_segments[i], t, center);
                    self.wire_segments.set(i, moved);
                    proof {
                        assert(wire_segments@.take(k + 1 as int) =~= wire_segments@.take(
                            k as int,
                        ).push(wire_segments@[k as int]));
                        assert(wire_segments@.take(k + 1 as int)[k as int] == i);
                    }
                }
                proof {
                    assert(forall|i2: int|
                        0 <= i2 < pre.wire_segments.len() && !wire_segments@.contains(i2 as usize)
                            ==> #[trigger] self@.wire_segments[i2] == pre.wire_segments[i2]) by {
                        assert(wire_segments@.take(ns as int) =~= wire_segments@);
                    }
                }

                self.selection = Selection::Multi { components, wire_segments, center };
                proof {
                    assert forall|c2: int|
                        0 <= c2 < pre.components.len() && components@.contains(c2 as usize) implies {
                        let x = #[trigger] pre.components[c2];
                        self@.components[c2] == (Component {
                            position: transformed_pt(t, center, x.position),
                            ..xformed_component(x, t)
                        }) && self@.components[c2].wf()
                    } by {
                        let kk = choose|kk: int|
                            0 <= kk < components@.len() && components@[kk] == c2 as usize;
                        assert(self@.components[components@[kk] as int] == (Component {
                            position: transformed_pt(
                                t,
                                center,
                                pre.components[components@[kk] as int].position,
                            ),
                            ..xformed_component(pre.components[components@[kk] as int], t)
                        }));
                    }
                    assert forall|i2: int|
                        0 <= i2 < pre.wire_segments.len() && wire_segments@.contains(i2 as usize)
                        implies seg_transformed(
                        pre.wire_segments[i2],
                        self@.wire_segments[i2],
                        t,
                        center,
                    ) && self@.wire_segments[i2].wf() by {
                        let kk = choose|kk: int|
                            0 <= kk < wire_segments@.len() && wire_segments@[kk] == i2 as usize;
                        assert((wire_segments@[kk] as int) < pre.wire_segments.len());
                    }
                    assert(self@.wf());
                    assert(transformed_from(pre, self@, t));
                }
            },
        }
    }

    /// Rotates the selection a quarter turn counterclockwise.
    pub fn counterclockwise_rotate_selection(&mut self)
        requires
            old(self)@.wf(),
            transform_ok(old(self)@, PointTransform::RotateCcw),
        ensures
            final(self)@.wf(),
            transformed_from(old(self)@, final(self)@, PointTransform::RotateCcw),
    {
        self.transform_selection(PointTransform::RotateCcw);
    }

    /// Rotates the selection a quarter turn clockwise.
    pub fn clockwise_rotate_selection(&mut self)
        requires
            old(self)@.wf(),
            transform_ok(old(self)@, PointTransform::RotateCw),
        ensures
            final(self)@.wf(),
            transformed_from(old(self)@, final(self)@, PointTransform::RotateCw),
    {
        self.transform_selection(PointTransform::RotateCw);
    }

    /// Mirrors the selection across the X axis through its pivot.
    pub fn mirror_selection(&mut self)
        requires
            old(self)@.wf(),
            transform_ok(old(self)@, PointTransform::MirrorX),
        ensures
            final(self)@.wf(),
            transformed_from(old(self)@, final(self)@, PointTransform::MirrorX),
    {
        self.transform_selection(PointTransform::MirrorX);
    }
}

/// The components that survive deleting the selection, from index `i`
/// on, in their original order.
pub open spec fn components_after_delete(v: CircuitView, i: int) -> Seq<Component>
    decreases v.components.len() - i,
{
    if i < 0 || i >= v.components.len() {
        Seq::empty()
    } else if v.selection.spec_contains_component(i as usize) {
        components_after_delete(v, i + 1)
    } else {
        seq![v.components[i]] + components_after_delete(v, i + 1)
    }
}

/// The wire segments that survive deleting the selection, from index `i`
/// on, in their original order.
pub open spec fn segments_after_delete(v: CircuitView, i: int) -> Seq<WireSegment>
    decreases v.wire_segments.len() - i,
{
    if i < 0 || i >= v.wire_segments.len() {
        Seq::empty()
    } else if v.selection.spec_contains_wire_segment(i as usize) {
        segments_after_delete(v, i + 1)
    } else {
        seq![v.wire_segments[i]] + segments_after_delete(v, i + 1)
    }
}

impl Circuit {
    /// Removes every selected component and wire segment, keeping the
    /// rest in order, and clears the selection.  Any gesture in progress
    /// is abandoned, since it may refer to a removed element.
    #[verifier::loop_isolation(false)]
    pub fn delete_selection(&mut self)
        requires
            old(self)@.wf(),
        ensures
            final(self)@.wf(),
            final(self)@.components == components_after_delete(old(self)@, 0),
            final(self)@.wire_segments == segments_after_delete(old(self)@, 0),
            final(self)@.selection is Empty,
            final(self)@.drag_state is Idle,
            final(self)@.name == old(self)@.name,
            final(self)@.offset == old(self)@.offset,
            final(self)@.linear_zoom == old(self)@.linear_zoom,
            final(self)@.primary_down == old(self)@.primary_down,
            final(self)@.secondary_down == old(self)@.secondary_down,
            final(self)@.sim_state == old(self)@.sim_state,
    {
        let ghost pre = self@;
        let mut sel = Selection::Empty;
        core::mem::swap(&mut sel, &mut self.selection);

        let n_comps = self.components.len();
        let mut kept_comps: Vec<Component> = Vec::new();
        for i in 0..n_comps
            invariant
                n_comps == pre.components.len(),
                self@.components.len() == pre.components.len(),
                sel == pre.selection,
                forall|j: int|
                    i <= j < pre.components.len() ==> #[trigger] self@.components[j]
                        == pre.components[j],
                components_after_delete(pre, 0) == kept_comps@ + components_after_delete(
                    pre,
                    i as int,
                ),
                forall|k: int| 0 <= k < kept_comps@.len() ==> (#[trigger] kept_comps@[k]).wf(),
                self@ == (CircuitView { components: self@.components, selection: self@.selection, ..pre }),
                self@.selection is Empty,
        {
            let mut tmp = Component::new(ComponentKind::new_and_gate());
            self.components.set_and_swap(i, &mut tmp);
            proof {
                assert(components_after_delete(pre, i as int) == (
                if pre.selection.spec_contains_component(i as usize) {
                    components_after_delete(pre, i + 1 as int)
                } else {
                    seq![pre.components[i as int]] + components_after_delete(pre, i + 1 as int)
                }));
            }
            if !sel.contains_component(i) {
                kept_comps.push(tmp);
                proof {
                    assert(kept_comps@ + components_after_delete(pre, i + 1 as int)
                        =~= kept_comps@.drop_last() + (seq![pre.components[i as int]]
                        + components_after_delete(pre, i + 1 as int)));
                }
            }
        }
        proof {
            assert(components_after_delete(pre, n_comps as int) =~= Seq::empty());
            assert(kept_comps@ + Seq::<Component>::empty() =~= kept_comps@);
        }
        self.components = kept_comps;

        let n_segs = self.wire_segments.len();
        let mut kept_segs: Vec<WireSegment> = Vec::new();
        for i in 0..n_segs
            invariant
                n_segs == pre.wire_segments.len(),
                self@.wire_segments.len() == pre.wire_segments.len(),
                sel == pre.selection,
                forall|j: int|
                    i <= j < pre.wire_segments.len() ==> #[trigger] self@.wire_segments[j]
                        == pre.wire_segments[j],
                segments_after_delete(pre, 0) == kept_segs@ + segments_after_delete(pre, i as int),
                forall|k: int| 0 <= k < kept_segs@.len() ==> (#[trigger] kept_segs@[k]).wf(),
                self@.components == components_after_delete(pre, 0),
                self@ == (CircuitView {
                    components: self@.components,
                    wire_segments: self@.wire_segments,
                    selection: self@.selection,
                    ..pre
                }),
                self@.selection is Empty,
        {
            let mut tmp = WireSegment {
                endpoint_a: Vec2i { x: 0, y: 0 },
                midpoints: Vec::new(),
                endpoint_b: Vec2i { x: 0, y: 0 },
                sim_wire: None,
            };
            self.wire_segments.set_and_swap(i, &mut tmp);
            proof {
                assert(segments_after_delete(pre, i as int) == (
                if pre.selection.spec_contains_wire_segment(i as usize) {
                    segments_after_delete(pre, i + 1 as int)
                } else {
                    seq![pre.wire_segments[i as int]] + segments_after_delete(pre, i + 1 as int)
                }));
            }
            if !sel.contains_wire_segment(i) {
                kept_segs.push(tmp);
                proof {
                    assert(kept_segs@ + segments_after_delete(pre, i + 1 as int)
                        =~= kept_segs@.drop_last() + (seq![pre.wire_segments[i as int]]
                        + segments_after_delete(pre, i + 1 as int)));
                }
            }
        }
        proof {
            assert(segments_after_delete(pre, n_segs as int) =~= Seq::empty());
            assert(kept_segs@ + Seq::<WireSegment>::empty() =~= kept_segs@);
        }
        self.wire_segments = kept_segs;

        self.drag_state = DragState::Idle;
    }
}

/// A snapshot handed to [`Circuit::restore`] holds out-of-range geometry
/// or a malformed component.
#[derive(Clone, Copy, Debug, PartialEq, Eq, Structural)]
pub struct RestoreError {}

/// The persisted fields are acceptable: view and zoom in range, every
/// component well-formed, every wire point within the working range.
pub open spec fn restorable(
    offset: Vec2f,
    linear_zoom: u32,
    components: Seq<Component>,
    wire_segments: Seq<WireSegment>,
) -> bool {
    &&& offset.in_bounds()
    &&& linear_zoom <= LINEAR_ZOOM_MAX
    &&& forall|c: int| 0 <= c < components.len() ==> (#[trigger] components[c]).wf()
    &&& forall|i: int| 0 <= i < wire_segments.len() ==> (#[trigger] wire_segments[i]).wf()
}

/// Checks that a kind declares valid widths and ranges.
#[verifier::loop_isolation(false)]
fn kind_wf_check(k: &ComponentKind) -> (r: bool)
    ensures
        r == k.wf(),
{
    match k {
        ComponentKind::Input { width, .. } => 1 <= *width,
        ComponentKind::ClockInput { .. } => true,
        ComponentKind::Output { width, .. } => 1 <= *width,
        ComponentKind::Splitter { width, ranges } => {
            if *width < 1 || ranges.len() > 255 {
                return false;
            }
            let n = ranges.len();
            for i in 0..n
                invariant
                    n == ranges@.len(),
                    forall|j: int|
                        0 <= j < i ==> (#[trigger] ranges@[j]).0 <= ranges@[j].1 && ranges@[j].1
                            - ranges@[j].0 < 255,
            {
                let (lo, hi) = ranges[i];
                if lo > hi || hi - lo >= 255 {
                    proof {
                        assert(ranges@[i as int].0 == lo && ranges@[i as int].1 == hi);
                    }
                    return false;
                }
            }
            true
        },
        ComponentKind::AndGate { width } => 1 <= *width,
        ComponentKind::OrGate { width } => 1 <= *width,
        ComponentKind::XorGate { width } => 1 <= *width,
        ComponentKind::NandGate { width } => 1 <= *width,
        ComponentKind::NorGate { width } => 1 <= *width,
        ComponentKind::XnorGate { width } => 1 <= *width,
    }
}

/// Checks that a grid point is within the working range.
fn pt_check(p: Vec2i) -> (r: bool)
    ensures
        r == p.in_bounds(),
{
    -COORD_LIMIT <= p.x && p.x <= COORD_LIMIT && -COORD_LIMIT <= p.y && p.y <= COORD_LIMIT
}

impl Circuit {
    /// Rebuilds a circuit from its persisted fields, validating them;
    /// selection, drag state and simulation state start out clear.
    #[verifier::loop_isolation(false)]
    pub fn restore(
        name: String,
        offset: Vec2f,
        linear_zoom: u32,
        components: Vec<Component>,
        wire_segments: Vec<WireSegment>,
    ) -> (r: Result<Circuit, RestoreError>)
        ensures
            r matches Ok(c) ==> {
                &&& c@.wf()
                &&& c@.name == name@
                &&& c@.offset == offset
                &&& c@.linear_zoom == linear_zoom
                &&& c@.components == components@
                &&& c@.wire_segments == wire_segments@
                &&& c@.selection is Empty
                &&& c@.drag_state is Idle
                &&& c@.sim_state is Inactive
                &&& !c@.primary_down
                &&& !c@.secondary_down
            },
            r is Ok <==> restorable(offset, linear_zoom, components@, wire_segments@),
    {
        if !(-FINE_LIMIT <= offset.x && offset.x <= FINE_LIMIT && -FINE_LIMIT <= offset.y
            && offset.y <= FINE_LIMIT) {
            return Err(RestoreError {});
        }
        if linear_zoom > LINEAR_ZOOM_MAX {
            return Err(RestoreError {});
        }
        let nc = components.len();
        for c in 0..nc
            invariant
                nc == components@.len(),
                forall|j: int| 0 <= j < c ==> (#[trigger] components@[j]).wf(),
        {
            if !kind_wf_check(&components[c].kind) || !pt_check(components[c].position) {
                proof {
                    assert(!(components@[c as int]).wf());
                }
                return Err(RestoreError {});
            }
        }
        let ns = wire_segments.len();
        for i in 0..ns
            invariant
                ns == wire_segments@.len(),
                forall|j: int| 0 <= j < i ==> (#[trigger] wire_segments@[j]).wf(),
        {
            let seg = &wire_segments[i];
            if !pt_check(seg.endpoint_a) || !pt_check(seg.endpoint_b) {
                proof {
                    assert(!(wire_segments@[i as int]).wf());
                }
                return Err(RestoreError {});
            }
            let nm = seg.midpoints.len();
            for m in 0..nm
                invariant
                    nm == seg.midpoints@.len(),
                    forall|j: int| 0 <= j < m ==> (#[trigger] seg.midpoints@[j]).in_bounds(),
            {
                if !pt_check(seg.midpoints[m]) {
                    proof {
                        assert(!(wire_segments@[i as int]).wf());
                    }
                    return Err(RestoreError {});
                }
            }
        }
        Ok(
            Circuit {
                name,
                offset,
                linear_zoom,
                components,
                wire_segments,
                selection: Selection::Empty,
                drag_state: DragState::Idle,
                primary_button_down: false,
                secondary_button_down: false,
                sim_state: SimState::Inactive,
            },
        )
    }
}

/// What one run of the attached simulation reported.
#[derive(Clone, Copy, Debug, PartialEq, Eq, Structural)]
pub enum SimRunStatus {
    /// The simulation settled; it stays attached and live.
    Settled,
    /// The step budget ran out before settling; the simulation is
    /// discarded.
    MaxStepsReached,
    /// Drivers conflicted; the simulation is kept for inspection with the
    /// offending segments marked.
    DriverConflict,
}

/// The selection after a primary press over `hit`, and whether it
/// changed: a press replaces a single selection but preserves a selection
/// the pressed element is already part of; in wire-draw mode only
/// component bodies select.
pub open spec fn press_selection(
    sel: Selection,
    hit: HitTestResult,
    mode: DragMode,
) -> (Selection, bool) {
    match (hit, mode) {
        (HitTestResult::Miss, _) => {
            if sel is Empty {
                (sel, false)
            } else {
                (Selection::Empty, true)
            }
        },
        (HitTestResult::Component(c), _) => {
            if sel.spec_contains_component(c) {
                (sel, false)
            } else {
                (Selection::Component(c), true)
            }
        },
        (HitTestResult::ComponentAnchor(c), DragMode::BoxSelection) => {
            if sel.spec_contains_component(c) {
                (sel, false)
            } else {
                (Selection::Component(c), true)
            }
        },
        (HitTestResult::WireSegment(w, _), DragMode::BoxSelection) => {
            if sel.spec_contains_wire_segment(w) {
                (sel, false)
            } else {
                (Selection::WireSegment(w), true)
            }
        },
        (HitTestResult::WirePointA(w), DragMode::BoxSelection) => {
            if sel.spec_contains_wire_segment(w) {
                (sel, false)
            } else {
                (Selection::WireSegment(w), true)
            }
        },
        (HitTestResult::WirePointB(w), DragMode::BoxSelection) => {
            if sel.spec_contains_wire_segment(w) {
                (sel, false)
            } else {
                (Selection::WireSegment(w), true)
            }
        },
        (_, DragMode::DrawWire) => (sel, false),
    }
}

/// The component a live click toggles: the hit must be a component or
/// anchor, the component a one-bit input port with a cached simulator
/// wire.
pub open spec fn toggle_target(v: CircuitView, hit: HitTestResult) -> Option<int> {
    match hit {
        HitTestResult::Component(c) => toggle_target_comp(v, c as int),
        HitTestResult::ComponentAnchor(c) => toggle_target_comp(v, c as int),
        _ => None,
    }
}

/// Helper of [`toggle_target`]: whether component `c` is a toggleable
/// live input.
pub open spec fn toggle_target_comp(v: CircuitView, c: int) -> Option<int> {
    if 0 <= c < v.components.len() && (v.components[c].kind matches ComponentKind::Input {
        width,
        ..
    } && width == 1) && v.components[c].sim_drive_wire is Some {
        Some(c)
    } else {
        None
    }
}

/// Component `c` with its input drive value toggled in the lowest bit.
pub open spec fn toggled_component(x: Component) -> Component {
    match x.kind {
        ComponentKind::Input { name, value, width } => Component {
            kind: ComponentKind::Input { name, value: value ^ 1, width },
            ..x
        },
        _ => x,
    }
}

/// `out` lists exactly the segments whose cached simulator wire is among
/// the reported conflict handles `hs`.
pub open spec fn conflict_map_ok(segs: Seq<WireSegment>, hs: Seq<gsim::WireId>, out: Seq<usize>) -> bool {
    forall|i: int|
        0 <= i < segs.len() ==> (#[trigger] out.contains(i as usize) <==> (segs[i].sim_wire
            matches Some(w) && hs.contains(w)))
}

/// Maps the simulator wires reported as conflicting back to the owning
/// wire segments: exactly the segments whose cached wire is among the
/// reported handles, in ascending order.
pub fn map_conflicts(segments: &Vec<WireSegment>, conflicts: &Vec<gsim::WireId>) -> (r: Vec<usize>)
    ensures
        index_list_wf(r@, segments@.len() as int),
        conflict_map_ok(segments@, conflicts@, r@),
{
    let ns = segments.len();
    let mut r: Vec<usize> = Vec::new();
    for i in 0..ns
        invariant
            ns == segments@.len(),
            index_list_wf(r@, ns as int),
            forall|k: int| 0 <= k < r@.len() ==> (#[trigger] r@[k] as int) < i,
            forall|i2: int|
                0 <= i2 < i ==> (#[trigger] r@.contains(i2 as usize) <==> (segments@[
                    i2].sim_wire matches Some(w) && conflicts@.contains(w))),
    {
        let ghost r0 = r@;
        let hit = match &segments[i].sim_wire {
            Some(w) => {
                let wv = *w;
                proof {
                    assert(segments@[i as int].sim_wire == Some(wv));
                }
                let mut found = false;
                let nc = conflicts.len();
                for k in 0..nc
                    invariant
                        nc == conflicts@.len(),
                        found <==> exists|kk: int|
                            0 <= kk < k && #[trigger] conflicts@[kk] == wv,
                {
                    if crate::sim::wire_id_eq(wv, conflicts[k]) {
                        proof {
                            assert(conflicts@[k as int] == wv);
                        }
                        found = true;
                    }
                }
                proof {
                    if found {
                        let kk = choose|kk: int| 0 <= kk < nc && #[trigger] conflicts@[kk] == wv;
                        assert(conflicts@.contains(wv));
                    } else {
                        assert(!conflicts@.contains(wv)) by {
                            if conflicts@.contains(wv) {
                                let kk = choose|kk: int|
                                    0 <= kk < conflicts@.len() && conflicts@[kk] == wv;
                            }
                        }
                    }
                }
                found
            },
            None => false,
        };
        if hit {
            r.push(i);
            proof {
                assert(r@[r@.len() - 1] == i);
                assert forall|i2: int|
                    0 <= i2 < i + 1 implies (#[trigger] r@.contains(i2 as usize) <==> (segments@[
                    i2].sim_wire matches Some(w) && conflicts@.contains(w))) by {
                    if i2 < i {
                        if r0.contains(i2 as usize) {
                            let kk = choose|kk: int| 0 <= kk < r0.len() && r0[kk] == i2 as usize;
                            assert(r@[kk] == i2 as usize);
                        }
                        if r@.contains(i2 as usize) {
                            let kk = choose|kk: int| 0 <= kk < r@.len() && r@[kk] == i2 as usize;
                            assert(kk < r0.len());
                            assert(r0[kk] == i2 as usize);
                        }
                    }
                }
            }
        } else {
            proof {
                assert(!r@.contains(i as usize)) by {
                    if r@.contains(i as usize) {
                        let kk = choose|kk: int| 0 <= kk < r@.len() && r@[kk] == i as usize;
                    }
                }
            }
        }
    }
    r
}

impl Circuit {
    /// Attaches the simulation according to what one run reported: a
    /// settled run stays live, an exhausted step budget discards it, and
    /// a driver conflict keeps it for inspection with exactly the
    /// segments whose cached wire is among the reported handles marked.
    /// Only `sim_state` changes.
    fn apply_run_outcome(
        &mut self,
        sim: SimInstance,
        clock_state: bool,
        outcome: crate::sim::SimRunOutcome,
    ) -> (r: SimRunStatus)
        requires
            old(self)@.wf(),
        ensures
            final(self)@.wf(),
            final(self)@ == (CircuitView { sim_state: final(self)@.sim_state, ..old(self)@ }),
            match outcome {
                crate::sim::SimRunOutcome::Settled => final(self)@.sim_state matches
                    SimState::Active { sim: s2, clock_state: cs } && s2 == sim && cs == clock_state
                    && r == SimRunStatus::Settled,
                crate::sim::SimRunOutcome::MaxStepsReached => final(self)@.sim_state is Inactive
                    && r == SimRunStatus::MaxStepsReached,
                crate::sim::SimRunOutcome::Conflict(hs) => final(self)@.sim_state matches
                    SimState::Conflict { sim: s2, conflict_segments } && s2 == sim
                    && index_list_wf(conflict_segments@, old(self)@.wire_segments.len() as int)
                    && conflict_map_ok(old(self)@.wire_segments, hs@, conflict_segments@) && r
                    == SimRunStatus::DriverConflict,
            },
    {
        match outcome {
            crate::sim::SimRunOutcome::Settled => {
                self.sim_state = SimState::Active { sim, clock_state };
                SimRunStatus::Settled
            },
            crate::sim::SimRunOutcome::MaxStepsReached => {
                self.sim_state = SimState::Inactive;
                SimRunStatus::MaxStepsReached
            },
            crate::sim::SimRunOutcome::Conflict(conflicts) => {
                let conflict_segments = map_conflicts(&self.wire_segments, &conflicts);
                self.sim_state = SimState::Conflict { sim, conflict_segments };
                SimRunStatus::DriverConflict
            },
        }
    }

    /// Runs the attached simulation and applies the outcome; see
    /// [`Circuit::apply_run_outcome`] for the exact per-outcome mapping.
    fn advance_simulation(
        &mut self,
        sim: SimInstance,
        clock_state: bool,
        max_steps: u64,
    ) -> (r: SimRunStatus)
        requires
            old(self)@.wf(),
        ensures
            final(self)@.wf(),
            final(self)@ == (CircuitView { sim_state: final(self)@.sim_state, ..old(self)@ }),
            match r {
                SimRunStatus::Settled => final(self)@.sim_state matches SimState::Active {
                    clock_state: cs,
                    ..
                } && cs == clock_state,
                SimRunStatus::MaxStepsReached => final(self)@.sim_state is Inactive,
                SimRunStatus::DriverConflict => final(self)@.sim_state matches SimState::Conflict {
                    conflict_segments,
                    ..
                } && index_list_wf(conflict_segments@, old(self)@.wire_segments.len() as int)
                    && (exists|hs: Seq<gsim::WireId>|
                    #[trigger] conflict_map_ok(
                        old(self)@.wire_segments,
                        hs,
                        conflict_segments@,
                    )),
            },
    {
        let mut sim = sim;
        let outcome = crate::sim::sim_run(&mut sim, max_steps);
        self.apply_run_outcome(sim, clock_state, outcome)
    }

    /// Whether a simulation is attached and live.
    pub fn is_sim_active(&self) -> (r: bool)
        ensures
            r == (self@.sim_state is Active),
    {
        match &self.sim_state {
            SimState::Active { .. } => true,
            _ => false,
        }
    }

    /// The wire segments implicated in a driver conflict, if the attached
    /// simulation reported one.
    pub fn conflict_segments(&self) -> (r: Option<&Vec<usize>>)
        ensures
            match self@.sim_state {
                SimState::Conflict { conflict_segments, .. } => r matches Some(v) && v@
                    == conflict_segments@,
                _ => r is None,
            },
    {
        match &self.sim_state {
            SimState::Conflict { conflict_segments, .. } => Some(conflict_segments),
            _ => None,
        }
    }

    /// The drive value of the input port at component index `c`, if it is
    /// one.
    pub fn input_value(&self, c: usize) -> (r: Option<u32>)
        ensures
            match r {
                Some(v) => {
                    &&& (c as int) < self@.components.len()
                    &&& self@.components[c as int].kind matches ComponentKind::Input { value, .. }
                        && value == v
                },
                None => (c as int) >= self@.components.len() || !(self@.components[c as int].kind
                    matches ComponentKind::Input { .. }),
            },
    {
        if c < self.components.len() {
            match &self.components[c].kind {
                ComponentKind::Input { value, .. } => Some(*value),
                _ => None,
            }
        } else {
            None
        }
    }

    /// The logic level currently on the simulator wire cached for anchor
    /// `k` of component `c`: `None` without a live or conflicted
    /// simulation, for an unknown handle, or for a high-impedance or
    /// undefined level.
    pub fn anchor_wire_state(&self, c: usize, k: usize) -> (r: Option<bool>)
        requires
            self@.wf(),
        ensures
            (c as int) >= self@.components.len() ==> r is None,
            (c as int) < self@.components.len() && (k as int) >= self@.components[
                c as int].sim_anchor_wires@.len() ==> r is None,
            self@.sim_state is Inactive ==> r is None,
    {
        if c >= self.components.len() {
            return None;
        }
        if k >= self.components[c].sim_anchor_wires.len() {
            return None;
        }
        let w = self.components[c].sim_anchor_wires[k];
        match &self.sim_state {
            SimState::Active { sim, .. } => crate::sim::sim_wire_state_bit(sim, w),
            SimState::Conflict { sim, .. } => crate::sim::sim_wire_state_bit(sim, w),
            SimState::Inactive => None,
        }
    }

    /// Handles a primary-button press at logical position `pos`.
    ///
    /// A press while another gesture is active is invalid and is
    /// rejected unchanged.  With a live simulation, a press on a one-bit
    /// input port toggles its drive and re-runs the simulation (a "live"
    /// click); otherwise the press updates the selection and arms the
    /// drag dead zone.  Returns whether a redraw is needed.
    pub fn primary_button_pressed(&mut self, pos: Vec2f, drag_mode: DragMode, max_steps: u64) -> (r:
        bool)
        requires
            old(self)@.wf(),
            drag_bounded(pos),
        ensures
            final(self)@.wf(),
            old(self)@.drag_state !is Idle ==> final(self)@ == old(self)@ && r == false,
            old(self)@.drag_state is Idle ==> {
                let hit = spec_hit_test(old(self)@, pos, None);
                if old(self)@.sim_state is Active {
                    match toggle_target(old(self)@, hit) {
                        Some(c) => {
                            &&& final(self)@.components == old(self)@.components.update(
                                c,
                                toggled_component(old(self)@.components[c]),
                            )
                            &&& final(self)@ == (CircuitView {
                                components: final(self)@.components,
                                sim_state: final(self)@.sim_state,
                                primary_down: true,
                                ..old(self)@
                            })
                            &&& match final(self)@.sim_state {
                                SimState::Active { clock_state: cs, .. } => cs == old(self)@.sim_state->Active_clock_state,
                                SimState::Inactive => true,
                                SimState::Conflict { conflict_segments, .. } => index_list_wf(
                                    conflict_segments@,
                                    old(self)@.wire_segments.len() as int,
                                ) && (exists|hs: Seq<gsim::WireId>|
                                #[trigger] conflict_map_ok(
                                    old(self)@.wire_segments,
                                    hs,
                                    conflict_segments@,
                                )),
                            }
                            &&& r == true
                        },
                        None => {
                            &&& final(self)@ == (CircuitView { primary_down: true, ..old(self)@ })
                            &&& r == false
                        },
                    }
                } else {
                    let (sel, redraw) = press_selection(old(self)@.selection, hit, drag_mode);
                    &&& final(self)@ == (CircuitView {
                        selection: sel,
                        drag_state: DragState::Deadzone {
                            drag_start: pos,
                            drag_delta: Vec2f { x: 0i64, y: 0i64 },
                        },
                        primary_down: true,
                        ..old(self)@
                    })
                    &&& r == redraw
                }
            },
    {
        match &self.drag_state {
            DragState::Idle => {},
            _ => {
                return false;
            },
        }

        let nc0 = self.components.len();
        let ns0 = self.wire_segments.len();
        let hit = self.hit_test(pos, None);
        proof {
            lemma_hit_test_ranges(self@, pos, None);
        }

        let is_active = match &self.sim_state {
            SimState::Active { .. } => true,
            _ => false,
        };

        if is_active {
            let target = match hit {
                HitTestResult::Component(c) | HitTestResult::ComponentAnchor(c) => {
                    if c < self.components.len() {
                        let comp = &self.components[c];
                        let is_input_bit = match &comp.kind {
                            ComponentKind::Input { width, .. } => *width == 1,
                            _ => false,
                        };
                        if is_input_bit && comp.sim_drive_wire.is_some() {
                            Some(c)
                        } else {
                            None
                        }
                    } else {
                        None
                    }
                },
                _ => None,
            };
            match target {
                Some(c) => {
                    let wire = match &self.components[c].sim_drive_wire {
                        Some(w) => *w,
                        None => {
                            // Excluded by the toggle condition.
                            self.primary_button_down = true;
                            return false;
                        },
                    };
                    let mut tmp = Component::new(ComponentKind::new_and_gate());
                    self.components.set_and_swap(c, &mut tmp);
                    let new_value: u32 = match &tmp.kind {
                        ComponentKind::Input { value, .. } => *value ^ 1,
                        _ => 0,
                    };
                    match &mut tmp.kind {
                        ComponentKind::Input { value, .. } => {
                            *value = new_value;
                        },
                        _ => {},
                    }
                    self.components.set_and_swap(c, &mut tmp);
                    proof {
                        assert(self@.components =~= old(self)@.components.update(
                            c as int,
                            toggled_component(old(self)@.components[c as int]),
                        ));
                    }

                    let mut sim_state = SimState::Inactive;
                    core::mem::swap(&mut sim_state, &mut self.sim_state);
                    match sim_state {
                        SimState::Active { mut sim, clock_state } => {
                            crate::sim::sim_set_wire_drive(&mut sim, wire, new_value);
                            self.advance_simulation(sim, clock_state, max_steps);
                        },
                        _ => {},
                    }
                    self.primary_button_down = true;
                    true
                },
                None => {
                    self.primary_button_down = true;
                    false
                },
            }
        } else {
            self.drag_state = DragState::Deadzone {
                drag_start: pos,
                drag_delta: Vec2f { x: 0, y: 0 },
            };
            let redraw = match (hit, drag_mode) {
                (HitTestResult::Miss, _) => {
                    let was_empty = match &self.selection {
                        Selection::Empty => true,
                        _ => false,
                    };
                    if !was_empty {
                        self.selection = Selection::Empty;
                        true
                    } else {
                        false
                    }
                },
                (HitTestResult::Component(c), _)
                | (HitTestResult::ComponentAnchor(c), DragMode::BoxSelection) => {
                    if !self.selection.contains_component(c) {
                        self.selection = Selection::Component(c);
                        true
                    } else {
                        false
                    }
                },
                (HitTestResult::WireSegment(w, _), DragMode::BoxSelection)
                | (HitTestResult::WirePointA(w), DragMode::BoxSelection)
                | (HitTestResult::WirePointB(w), DragMode::BoxSelection) => {
                    if !self.selection.contains_wire_segment(w) {
                        self.selection = Selection::WireSegment(w);
                        true
                    } else {
                        false
                    }
                },
                (HitTestResult::ComponentAnchor(_), DragMode::DrawWire)
                | (HitTestResult::WireSegment(_, _), DragMode::DrawWire)
                | (HitTestResult::WirePointA(_), DragMode::DrawWire)
                | (HitTestResult::WirePointB(_), DragMode::DrawWire) => false,
            };
            self.primary_button_down = true;
            redraw
        }
    }

    /// Handles a secondary-button press; the gesture resolves on release.
    pub fn secondary_button_pressed(&mut self, pos: Vec2f) -> (r: bool)
        requires
            old(self)@.wf(),
        ensures
            final(self)@.wf(),
            final(self)@ == (CircuitView { secondary_down: true, ..old(self)@ }),
            r == false,
    {
        let _ = pos;
        self.secondary_button_down = true;
        false
    }

    /// Handles a secondary-button release: select-only semantics, with
    /// any drag in progress abandoned.
    pub fn secondary_button_released(&mut self, pos: Vec2f) -> (r: bool)
        requires
            old(self)@.wf(),
            drag_bounded(pos),
        ensures
            final(self)@.wf(),
            !old(self)@.secondary_down ==> final(self)@ == old(self)@ && r == false,
            old(self)@.secondary_down ==> {
                let hit = spec_hit_test(old(self)@, pos, None);
                let (sel, redraw) = press_selection(
                    old(self)@.selection,
                    hit,
                    DragMode::BoxSelection,
                );
                &&& final(self)@ == (CircuitView {
                    selection: sel,
                    drag_state: DragState::Idle,
                    secondary_down: false,
                    ..old(self)@
                })
                &&& r == redraw
            },
    {
        if !self.secondary_button_down {
            return false;
        }
        let nc0 = self.components.len();
        let ns0 = self.wire_segments.len();
        let hit = self.hit_test(pos, None);
        proof {
            lemma_hit_test_ranges(self@, pos, None);
        }
        let redraw = match hit {
            HitTestResult::Miss => {
                let was_empty = match &self.selection {
                    Selection::Empty => true,
                    _ => false,
                };
                if !was_empty {
                    self.selection = Selection::Empty;
                    true
                } else {
                    false
                }
            },
            HitTestResult::Component(c) | HitTestResult::ComponentAnchor(c) => {
                if !self.selection.contains_component(c) {
                    self.selection = Selection::Component(c);
                    true
                } else {
                    false
                }
            },
            HitTestResult::WireSegment(w, _) | HitTestResult::WirePointA(w)
            | HitTestResult::WirePointB(w) => {
                if !self.selection.contains_wire_segment(w) {
                    self.selection = Selection::WireSegment(w);
                    true
                } else {
                    false
                }
            },
        };
        self.drag_state = DragState::Idle;
        self.secondary_button_down = false;
        redraw
    }
}

/// The rubber-band rectangle spanned by a box-selection drag, corners
/// normalized.
pub open spec fn box_rect(start: Vec2f, delta: Vec2f) -> Rectangle {
    let ex = start.x + delta.x;
    let ey = start.y + delta.y;
    Rectangle {
        top: (if start.y >= ey {
            start.y as int
        } else {
            ey
        }) as i64,
        bottom: (if start.y <= ey {
            start.y as int
        } else {
            ey
        }) as i64,
        left: (if start.x <= ex {
            start.x as int
        } else {
            ex
        }) as i64,
        right: (if start.x >= ex {
            start.x as int
        } else {
            ex
        }) as i64,
    }
}

/// Whether the grid point lies in the rectangle (fine, inclusive).
pub open spec fn grid_pt_in_rect(r: Rectangle, p: Vec2i) -> bool {
    r.spec_contains(Vec2f { x: (p.x * FINE_STEPS) as i64, y: (p.y * FINE_STEPS) as i64 })
}

/// The ascending list of components whose position lies in the
/// rectangle, from index `c` on.
pub open spec fn box_comps(comps: Seq<Component>, r: Rectangle, c: int) -> Seq<usize>
    decreases comps.len() - c,
{
    if c < 0 || c >= comps.len() {
        Seq::empty()
    } else if grid_pt_in_rect(r, comps[c].position) {
        seq![c as usize] + box_comps(comps, r, c + 1)
    } else {
        box_comps(comps, r, c + 1)
    }
}

/// Whether any drawn point of the segment — an endpoint or a mid-point —
/// lies in the rectangle.
pub open spec fn seg_in_box(s: WireSegment, r: Rectangle) -> bool {
    ||| grid_pt_in_rect(r, s.endpoint_a)
    ||| grid_pt_in_rect(r, s.endpoint_b)
    ||| exists|m: int| 0 <= m < s.midpoints@.len() && grid_pt_in_rect(r, #[trigger] s.midpoints@[m])
}

/// The ascending list of wire segments with a drawn point in the
/// rectangle, from index `i` on.
pub open spec fn box_wires(segs: Seq<WireSegment>, r: Rectangle, i: int) -> Seq<usize>
    decreases segs.len() - i,
{
    if i < 0 || i >= segs.len() {
        Seq::empty()
    } else if seg_in_box(segs[i], r) {
        seq![i as usize] + box_wires(segs, r, i + 1)
    } else {
        box_wires(segs, r, i + 1)
    }
}

/// Executable form of [`seg_in_box`].
fn seg_box_hit(s: &WireSegment, r: Rectangle) -> (hit: bool)
    ensures
        hit == seg_in_box(*s, r),
{
    if r.contains(s.endpoint_a.to_vec2f()) || r.contains(s.endpoint_b.to_vec2f()) {
        return true;
    }
    let nm = s.midpoints.len();
    for m in 0..nm
        invariant
            nm == s.midpoints@.len(),
            forall|m2: int| 0 <= m2 < m ==> !grid_pt_in_rect(r, #[trigger] s.midpoints@[m2]),
    {
        if r.contains(s.midpoints[m].to_vec2f()) {
            proof {
                assert(grid_pt_in_rect(r, s.midpoints@[m as int]));
            }
            return true;
        }
    }
    false
}

/// The positions of the listed components.
pub open spec fn comps_positions(comps: Seq<Component>, cs: Seq<usize>) -> Seq<Vec2i> {
    cs.map(|k: int, c: usize| comps[c as int].position)
}

/// All drawn points of the listed wire segments, in order.
pub open spec fn wires_points(segs: Seq<WireSegment>, ws: Seq<usize>) -> Seq<Vec2i>
    decreases ws.len(),
{
    if ws.len() == 0 {
        Seq::empty()
    } else {
        segs[ws.first() as int].spec_points() + wires_points(segs, ws.drop_first())
    }
}

/// Extending the member list by one segment appends its points.
proof fn lemma_wires_points_snoc(segs: Seq<WireSegment>, ws: Seq<usize>, k: int)
    requires
        0 <= k < ws.len(),
    ensures
        wires_points(segs, ws.take(k + 1)) == wires_points(segs, ws.take(k)) + segs[
            ws[k] as int].spec_points(),
    decreases k,
{
    if k == 0 {
        assert(ws.take(1).drop_first() =~= Seq::empty());
        assert(ws.take(0) =~= Seq::<usize>::empty());
        assert(wires_points(segs, ws.take(1)) =~= wires_points(segs, ws.take(0)) + segs[
            ws[0] as int].spec_points());
    } else {
        lemma_wires_points_snoc(segs, ws.drop_first(), k - 1);
        assert(ws.take(k + 1).drop_first() =~= ws.drop_first().take(k));
        assert(ws.take(k).drop_first() =~= ws.drop_first().take(k - 1));
        assert(ws.drop_first()[k - 1] == ws[k]);
        assert(wires_points(segs, ws.take(k + 1)) =~= wires_points(segs, ws.take(k)) + segs[
            ws[k] as int].spec_points());
    }
}

/// Bounds of the running minima and maxima over in-range points.
proof fn lemma_pts_minmax_bounds(s: Seq<Vec2i>)
    requires
        s.len() >= 1,
        forall|i: int| 0 <= i < s.len() ==> (#[trigger] s[i]).in_bounds(),
    ensures
        -COORD_LIMIT <= crate::wire::pts_min_x(s) <= COORD_LIMIT,
        -COORD_LIMIT <= crate::wire::pts_max_x(s) <= COORD_LIMIT,
        -COORD_LIMIT <= crate::wire::pts_min_y(s) <= COORD_LIMIT,
        -COORD_LIMIT <= crate::wire::pts_max_y(s) <= COORD_LIMIT,
    decreases s.len(),
{
    if s.len() > 1 {
        lemma_pts_minmax_bounds(s.drop_last());
    }
}

/// What a released box selection selects: exactly one hit becomes a
/// single selection; several become a multi-selection listing them in
/// ascending order, with the pivot at the center of their bounding box;
/// none leaves the selection as it was.
pub open spec fn box_released_selection_ok(
    comps: Seq<Component>,
    segs: Seq<WireSegment>,
    old_sel: Selection,
    start: Vec2f,
    delta: Vec2f,
    sel: Selection,
) -> bool {
    let r = box_rect(start, delta);
    let cs = box_comps(comps, r, 0);
    let ws = box_wires(segs, r, 0);
    if cs.len() == 1 && ws.len() == 0 {
        sel == Selection::Component(cs[0])
    } else if cs.len() == 0 && ws.len() == 1 {
        sel == Selection::WireSegment(ws[0])
    } else if cs.len() > 0 || ws.len() > 0 {
        let pts = comps_positions(comps, cs) + wires_points(segs, ws);
        &&& sel matches Selection::Multi { components, wire_segments, center }
            && components@ == cs && wire_segments@ == ws && center == (Vec2f {
            x: (5 * (crate::wire::pts_min_x(pts) + crate::wire::pts_max_x(pts))) as i64,
            y: (5 * (crate::wire::pts_min_y(pts) + crate::wire::pts_max_y(pts))) as i64,
        })
    } else {
        sel == old_sel
    }
}

/// The selection after a primary release with no gesture in progress:
/// unlike a press, a release always selects the hit entity.
pub open spec fn release_selection(sel: Selection, hit: HitTestResult) -> (Selection, bool) {
    match hit {
        HitTestResult::Miss => {
            if sel is Empty {
                (sel, false)
            } else {
                (Selection::Empty, true)
            }
        },
        HitTestResult::Component(c) => (Selection::Component(c), true),
        HitTestResult::ComponentAnchor(c) => (Selection::Component(c), true),
        HitTestResult::WireSegment(w, _) => (Selection::WireSegment(w), true),
        HitTestResult::WirePointA(w) => (Selection::WireSegment(w), true),
        HitTestResult::WirePointB(w) => (Selection::WireSegment(w), true),
    }
}

/// After a wire-point drag ends on another segment's body, that segment
/// is split at the dropped endpoint (a T-junction becomes two segments
/// meeting there); otherwise the wires are untouched.
pub open spec fn release_split_ok(pre: CircuitView, post: CircuitView, w: usize, ep: Vec2i) -> bool {
    let p = Vec2f { x: (ep.x * FINE_STEPS) as i64, y: (ep.y * FINE_STEPS) as i64 };
    match spec_hit_test(pre, p, Some(w)) {
        HitTestResult::WireSegment(sw, leg) => {
            let old_seg = pre.wire_segments[sw as int];
            &&& post.wire_segments.len() == pre.wire_segments.len() + 1
            &&& post.wire_segments[sw as int].endpoint_a == old_seg.endpoint_a
            &&& post.wire_segments[sw as int].endpoint_b == ep
            &&& post.wire_segments[sw as int].midpoints@ == crate::wire::split_left(
                old_seg.midpoints@,
                leg as int,
                ep,
            )
            &&& post.wire_segments[sw as int].sim_wire == old_seg.sim_wire
            &&& post.wire_segments.last().endpoint_a == ep
            &&& post.wire_segments.last().endpoint_b == old_seg.endpoint_b
            &&& post.wire_segments.last().midpoints@ == crate::wire::split_right(
                old_seg.midpoints@,
                leg as int,
                ep,
            )
            &&& post.wire_segments.last().sim_wire == old_seg.sim_wire
            &&& forall|i: int|
                0 <= i < pre.wire_segments.len() && i != sw as int
                    ==> #[trigger] post.wire_segments[i] == pre.wire_segments[i]
        },
        _ => post.wire_segments == pre.wire_segments,
    }
}

impl Circuit {
    /// Handles a primary-button release at logical position `pos`,
    /// resolving whatever gesture was in progress: a plain click selects
    /// the entity under the pointer, a box selection selects everything
    /// inside the rubber band, and a finished wire-point drag splits any
    /// segment whose body the moved endpoint landed on.  Always returns
    /// to the idle drag state.
    #[verifier::loop_isolation(false)]
    #[verifier::rlimit(100)]
    #[verifier::spinoff_prover]
    pub fn primary_button_released(&mut self, pos: Vec2f) -> (r: bool)
        requires
            old(self)@.wf(),
            drag_bounded(pos),
        ensures
            final(self)@.wf(),
            !old(self)@.primary_down ==> final(self)@ == old(self)@ && r == false,
            old(self)@.primary_down ==> {
                &&& final(self)@.drag_state is Idle
                &&& !final(self)@.primary_down
                &&& match old(self)@.drag_state {
                    DragState::Idle => {
                        let hit = spec_hit_test(old(self)@, pos, None);
                        let (sel, redraw) = release_selection(old(self)@.selection, hit);
                        &&& final(self)@ == (CircuitView {
                            selection: sel,
                            drag_state: DragState::Idle,
                            primary_down: false,
                            ..old(self)@
                        })
                        &&& r == redraw
                    },
                    DragState::Deadzone { .. } => {
                        &&& final(self)@ == (CircuitView {
                            drag_state: DragState::Idle,
                            primary_down: false,
                            ..old(self)@
                        })
                        &&& r == false
                    },
                    DragState::DrawingBoxSelection { drag_start, drag_delta } => {
                        &&& final(self)@ == (CircuitView {
                            selection: final(self)@.selection,
                            drag_state: DragState::Idle,
                            primary_down: false,
                            ..old(self)@
                        })
                        &&& box_released_selection_ok(
                            old(self)@.components,
                            old(self)@.wire_segments,
                            old(self)@.selection,
                            drag_start,
                            drag_delta,
                            final(self)@.selection,
                        )
                        &&& r == true
                    },
                    DragState::DraggingWirePointA { wire_segment, .. } => {
                        &&& final(self)@ == (CircuitView {
                            wire_segments: final(self)@.wire_segments,
                            drag_state: DragState::Idle,
                            primary_down: false,
                            ..old(self)@
                        })
                        &&& release_split_ok(
                            old(self)@,
                            final(self)@,
                            wire_segment,
                            old(self)@.wire_segments[wire_segment as int].endpoint_a,
                        )
                        &&& r == false
                    },
                    DragState::DraggingWirePointB { wire_segment, .. } => {
                        &&& final(self)@ == (CircuitView {
                            wire_segments: final(self)@.wire_segments,
                            drag_state: DragState::Idle,
                            primary_down: false,
                            ..old(self)@
                        })
                        &&& release_split_ok(
                            old(self)@,
                            final(self)@,
                            wire_segment,
                            old(self)@.wire_segments[wire_segment as int].endpoint_b,
                        )
                        &&& r == false
                    },
                    DragState::Dragging { .. } => {
                        &&& final(self)@ == (CircuitView {
                            drag_state: DragState::Idle,
                            primary_down: false,
                            ..old(self)@
                        })
                        &&& r == false
                    },
                }
            },
    {
        if !self.primary_button_down {
            return false;
        }
        let ghost pre = self@;
        let nc = self.components.len();
        let ns = self.wire_segments.len();

        let mut drag = DragState::Idle;
        core::mem::swap(&mut drag, &mut self.drag_state);
        self.primary_button_down = false;

        match drag {
            DragState::Idle => {
                let hit = self.hit_test(pos, None);
                proof {
                    lemma_hit_test_ranges(self@, pos, None);
                }
                match hit {
                    HitTestResult::Miss => {
                        let was_empty = match &self.selection {
                            Selection::Empty => true,
                            _ => false,
                        };
                        if !was_empty {
                            self.selection = Selection::Empty;
                            true
                        } else {
                            false
                        }
                    },
                    HitTestResult::Component(c) | HitTestResult::ComponentAnchor(c) => {
                        self.selection = Selection::Component(c);
                        true
                    },
                    HitTestResult::WireSegment(w, _) | HitTestResult::WirePointA(w)
                    | HitTestResult::WirePointB(w) => {
                        self.selection = Selection::WireSegment(w);
                        true
                    },
                }
            },
            DragState::Deadzone { .. } => false,
            DragState::DrawingBoxSelection { drag_start, drag_delta } => {
                self.apply_box_selection(drag_start, drag_delta);
                true
            },
            DragState::DraggingWirePointA { wire_segment, .. } => {
                let ep = self.wire_segments[wire_segment].endpoint_a;
                self.split_under_endpoint(wire_segment, ep);
                false
            },
            DragState::DraggingWirePointB { wire_segment, .. } => {
                let ep = self.wire_segments[wire_segment].endpoint_b;
                self.split_under_endpoint(wire_segment, ep);
                false
            },
            DragState::Dragging { .. } => false,
        }
    }


    /// Resolves a finished box selection: selects everything whose
    /// position or drawn endpoint lies inside the rubber band.
    #[verifier::loop_isolation(false)]
    #[verifier::rlimit(100)]
    #[verifier::spinoff_prover]
    fn apply_box_selection(&mut self, drag_start: Vec2f, drag_delta: Vec2f)
        requires
            old(self)@.wf(),
            old(self)@.drag_state is Idle,
            drag_bounded(drag_start),
            drag_bounded(drag_delta),
        ensures
            final(self)@.wf(),
            final(self)@ == (CircuitView { selection: final(self)@.selection, ..old(self)@ }),
            box_released_selection_ok(
                old(self)@.components,
                old(self)@.wire_segments,
                old(self)@.selection,
                drag_start,
                drag_delta,
                final(self)@.selection,
            ),
    {
        let ghost pre = self@;
        let nc = self.components.len();
        let ns = self.wire_segments.len();
                let ex = drag_start.x + drag_delta.x;
                let ey = drag_start.y + drag_delta.y;
                let rect = Rectangle {
                    top: if drag_start.y >= ey {
                        drag_start.y
                    } else {
                        ey
                    },
                    bottom: if drag_start.y <= ey {
                        drag_start.y
                    } else {
                        ey
                    },
                    left: if drag_start.x <= ex {
                        drag_start.x
                    } else {
                        ex
                    },
                    right: if drag_start.x >= ex {
                        drag_start.x
                    } else {
                        ex
                    },
                };
                proof {
                    assert(rect == box_rect(drag_start, drag_delta));
                }

                let mut cs: Vec<usize> = Vec::new();
                for c in 0..nc
                    invariant
                        box_comps(pre.components, rect, 0) == cs@ + box_comps(pre.components, rect, c as int),
                        forall|k: int| 0 <= k < cs@.len() ==> (#[trigger] cs@[k] as int) < c,
                        index_list_wf(cs@, nc as int),
                        self@ == pre,
                {
                    proof {
                        assert(box_comps(pre.components, rect, c as int) == (
                        if grid_pt_in_rect(rect, pre.components[c as int].position) {
                            seq![c as usize] + box_comps(pre.components, rect, c + 1 as int)
                        } else {
                            box_comps(pre.components, rect, c + 1 as int)
                        }));
                    }
                    let p = self.components[c].position.to_vec2f();
                    if rect.contains(p) {
                        cs.push(c);
                        proof {
                            assert(cs@ + box_comps(pre.components, rect, c + 1 as int) =~= cs@.drop_last() + (
                            seq![c as usize] + box_comps(pre.components, rect, c + 1 as int)));
                        }
                    }
                }
                proof {
                    assert(box_comps(pre.components, rect, nc as int) =~= Seq::empty());
                    assert(cs@ + Seq::<usize>::empty() =~= cs@);
                }

                let mut ws: Vec<usize> = Vec::new();
                for i in 0..ns
                    invariant
                        box_wires(pre.wire_segments, rect, 0) == ws@ + box_wires(pre.wire_segments, rect, i as int),
                        forall|k: int| 0 <= k < ws@.len() ==> (#[trigger] ws@[k] as int) < i,
                        index_list_wf(ws@, ns as int),
                        self@ == pre,
                {
                    proof {
                        assert(box_wires(pre.wire_segments, rect, i as int) == (
                        if seg_in_box(pre.wire_segments[i as int], rect) {
                            seq![i as usize] + box_wires(pre.wire_segments, rect, i + 1 as int)
                        } else {
                            box_wires(pre.wire_segments, rect, i + 1 as int)
                        }));
                    }
                    if seg_box_hit(&self.wire_segments[i], rect) {
                        ws.push(i);
                        proof {
                            assert(ws@ + box_wires(pre.wire_segments, rect, i + 1 as int) =~= ws@.drop_last() + (
                            seq![i as usize] + box_wires(pre.wire_segments, rect, i + 1 as int)));
                        }
                    }
                }
                proof {
                    assert(box_wires(pre.wire_segments, rect, ns as int) =~= Seq::empty());
                    assert(ws@ + Seq::<usize>::empty() =~= ws@);
                }

                if cs.len() == 1 && ws.len() == 0 {
                    self.selection = Selection::Component(cs[0]);
                } else if cs.len() == 0 && ws.len() == 1 {
                    self.selection = Selection::WireSegment(ws[0]);
                } else if cs.len() > 0 || ws.len() > 0 {
                    let center = self.multi_pivot(&cs, &ws);
                    self.selection = Selection::Multi { components: cs, wire_segments: ws, center };
                }
    }


    /// The pivot of a multi-selection: the center of the bounding box of
    /// every member position and drawn wire point.
    #[verifier::loop_isolation(false)]
    #[verifier::rlimit(100)]
    #[verifier::spinoff_prover]
    fn multi_pivot(&self, cs: &Vec<usize>, ws: &Vec<usize>) -> (center: Vec2f)
        requires
            self@.wf(),
            index_list_wf(cs@, self@.components.len() as int),
            index_list_wf(ws@, self@.wire_segments.len() as int),
            cs@.len() + ws@.len() >= 1,
        ensures
            ({
                let pts = comps_positions(self@.components, cs@) + wires_points(
                    self@.wire_segments,
                    ws@,
                );
                center == (Vec2f {
                    x: (5 * (crate::wire::pts_min_x(pts) + crate::wire::pts_max_x(pts))) as i64,
                    y: (5 * (crate::wire::pts_min_y(pts) + crate::wire::pts_max_y(pts))) as i64,
                }) && center.in_bounds()
            }),
    {
        let ghost pre = self@;
        let nc = self.components.len();
        let ns = self.wire_segments.len();
        // Gather every member point for the pivot.
        let ghost all_pts = comps_positions(pre.components, cs@) + wires_points(pre.wire_segments, ws@);
        let mut pts: Vec<Vec2i> = Vec::new();
        let ncs = cs.len();
        for k in 0..ncs
            invariant
                ncs == cs@.len(),
                index_list_wf(cs@, nc as int),
                pts@ == comps_positions(pre.components, cs@.take(k as int)),
                self@ == pre,
        {
            pts.push(self.components[cs[k]].position);
            proof {
                assert(pts@ =~= comps_positions(pre.components, cs@.take(k + 1 as int)));
            }
        }
        proof {
            assert(cs@.take(ncs as int) =~= cs@);
        }
        let nws = ws.len();
        for k in 0..nws
            invariant
                nws == ws@.len(),
                index_list_wf(ws@, ns as int),
                pts@ == comps_positions(pre.components, cs@) + wires_points(pre.wire_segments, ws@.take(k as int)),
                self@ == pre,
        {
            let w = ws[k];
            pts.push(self.wire_segments[w].endpoint_a);
            let nm = self.wire_segments[w].midpoints.len();
            for m in 0..nm
                invariant
                    nm == self@.wire_segments[w as int].midpoints@.len(),
                    (w as int) < ns,
                    pts@ == comps_positions(pre.components, cs@) + wires_points(
                        pre.wire_segments,
                        ws@.take(k as int),
                    ) + seq![pre.wire_segments[w as int].endpoint_a] + pre.wire_segments[
                        w as int].midpoints@.take(m as int),
                    self@ == pre,
            {
                pts.push(self.wire_segments[w].midpoints[m]);
                proof {
                    assert(pts@ =~= comps_positions(pre.components, cs@) + wires_points(
                        pre.wire_segments,
                        ws@.take(k as int),
                    ) + seq![pre.wire_segments[w as int].endpoint_a]
                        + pre.wire_segments[w as int].midpoints@.take(m + 1 as int));
                }
            }
            pts.push(self.wire_segments[w].endpoint_b);
            proof {
                lemma_wires_points_snoc(pre.wire_segments, ws@, k as int);
                assert(pre.wire_segments[w as int].midpoints@.take(nm as int)
                    =~= pre.wire_segments[w as int].midpoints@);
                assert(pts@ =~= comps_positions(pre.components, cs@) + wires_points(
                    pre.wire_segments,
                    ws@.take(k + 1 as int),
                ));
            }
        }
        proof {
            assert(ws@.take(nws as int) =~= ws@);
            assert(pts@ == all_pts);
            assert(all_pts.len() >= 1);
            assert forall|j: int| 0 <= j < all_pts.len() implies (
            #[trigger] all_pts[j]).in_bounds() by {
                if j < cs@.len() {
                    assert(all_pts[j] == pre.components[cs@[j] as int].position);
                } else {
                    lemma_wires_points_members(pre.wire_segments, ws@, j - cs@.len());
                }
            }
            lemma_pts_minmax_bounds(all_pts);
        }

        let np = pts.len();
        let mut min_x: i32 = pts[0].x;
        let mut max_x: i32 = pts[0].x;
        let mut min_y: i32 = pts[0].y;
        let mut max_y: i32 = pts[0].y;
        for j in 1..np
            invariant
                np == pts@.len(),
                pts@ == all_pts,
                min_x as int == crate::wire::pts_min_x(all_pts.take(j as int)),
                max_x as int == crate::wire::pts_max_x(all_pts.take(j as int)),
                min_y as int == crate::wire::pts_min_y(all_pts.take(j as int)),
                max_y as int == crate::wire::pts_max_y(all_pts.take(j as int)),
        {
            proof {
                assert(all_pts.take(j + 1 as int).drop_last() =~= all_pts.take(
                    j as int,
                ));
            }
            let q = pts[j];
            if q.x < min_x {
                min_x = q.x;
            }
            if q.x > max_x {
                max_x = q.x;
            }
            if q.y < min_y {
                min_y = q.y;
            }
            if q.y > max_y {
                max_y = q.y;
            }
        }
        proof {
            assert(all_pts.take(np as int) =~= all_pts);
        }
        let center = Vec2f {
            x: 5 * ((min_x as i64) + (max_x as i64)),
            y: 5 * ((min_y as i64) + (max_y as i64)),
        };
        center
    }

    /// Splits the segment whose body lies exactly under the dropped
    /// endpoint `ep` of segment `w`, if there is one.
    fn split_under_endpoint(&mut self, w: usize, ep: Vec2i)
        requires
            old(self)@.wf(),
            old(self)@.drag_state is Idle,
            ep.in_bounds(),
        ensures
            final(self)@.wf(),
            final(self)@ == (CircuitView {
                wire_segments: final(self)@.wire_segments,
                ..old(self)@
            }),
            release_split_ok(old(self)@, final(self)@, w, ep),
    {
        let ghost pre = self@;
        let ns = self.wire_segments.len();
        let nc = self.components.len();
        let p = ep.to_vec2f();
        let hit = self.hit_test(p, Some(w));
        proof {
            lemma_hit_test_ranges(self@, p, Some(w));
        }
        match hit {
            HitTestResult::WireSegment(sw, leg) => {
                let mut tmp = WireSegment {
                    endpoint_a: Vec2i { x: 0, y: 0 },
                    midpoints: Vec::new(),
                    endpoint_b: Vec2i { x: 0, y: 0 },
                    sim_wire: None,
                };
                self.wire_segments.set_and_swap(sw, &mut tmp);
                let new_seg = tmp.split_at(leg, ep);
                self.wire_segments.set_and_swap(sw, &mut tmp);
                self.wire_segments.push(new_seg);
                proof {
                    let old_seg = pre.wire_segments[sw as int];
                    assert(crate::wire::split_left(old_seg.midpoints@, leg as int, ep).len()
                        <= old_seg.midpoints@.len());
                    assert forall|m: int|
                        0 <= m < crate::wire::split_left(old_seg.midpoints@, leg as int, ep).len()
                        implies (#[trigger] crate::wire::split_left(
                        old_seg.midpoints@,
                        leg as int,
                        ep,
                    )[m]).in_bounds() by {
                        assert(crate::wire::split_left(old_seg.midpoints@, leg as int, ep)[m]
                            == old_seg.midpoints@[m]);
                    }
                    assert forall|m: int|
                        0 <= m < crate::wire::split_right(old_seg.midpoints@, leg as int, ep).len()
                        implies (#[trigger] crate::wire::split_right(
                        old_seg.midpoints@,
                        leg as int,
                        ep,
                    )[m]).in_bounds() by {
                        let rr = crate::wire::split_right(old_seg.midpoints@, leg as int, ep);
                        let skipped = old_seg.midpoints@.skip(leg as int);
                        if skipped.len() > 0 && skipped.first() == ep {
                            assert(rr[m] == old_seg.midpoints@[leg + 1 + m]);
                        } else {
                            assert(rr[m] == old_seg.midpoints@[leg + m]);
                        }
                    }
                }
            },
            _ => {},
        }
    }
}

/// Every gathered wire point is one of the listed segments' drawn
/// points, hence in range.
proof fn lemma_wires_points_members(segs: Seq<WireSegment>, ws: Seq<usize>, j: int)
    requires
        0 <= j < wires_points(segs, ws).len(),
        forall|k: int| 0 <= k < ws.len() ==> (#[trigger] ws[k] as int) < segs.len(),
        forall|i: int| 0 <= i < segs.len() ==> (#[trigger] segs[i]).wf(),
    ensures
        wires_points(segs, ws)[j].in_bounds(),
    decreases ws.len(),
{
    if ws.len() > 0 {
        let head = segs[ws.first() as int];
        if j < head.spec_points().len() {
            assert(wires_points(segs, ws)[j] == head.spec_points()[j]);
            if j == 0 {
                assert(head.spec_points()[0] == head.endpoint_a);
            } else if j == head.spec_points().len() - 1 {
                assert(head.spec_points()[j] == head.endpoint_b);
            } else {
                assert(head.spec_points()[j] == head.midpoints@[j - 1]);
            }
        } else {
            lemma_wires_points_members(segs, ws.drop_first(), j - head.spec_points().len());
        }
    }
}

/// Pointer motion below this accumulated distance (in fine steps) stays
/// in the dead zone.
pub const DEADZONE_RANGE: i64 = 8;

/// A fine coordinate clamped to the working range.
pub open spec fn sat_fine(x: int) -> int {
    if x > GRID_FINE_LIMIT {
        GRID_FINE_LIMIT as int
    } else if x < -GRID_FINE_LIMIT {
        -GRID_FINE_LIMIT
    } else {
        x
    }
}

/// Componentwise clamped sum of two fine vectors.
pub open spec fn sat_sum(a: Vec2f, b: Vec2f) -> Vec2f {
    Vec2f { x: sat_fine(a.x + b.x) as i64, y: sat_fine(a.y + b.y) as i64 }
}

/// A fine coordinate in grid units, rounded to nearest with halves away
/// from zero.
pub open spec fn round_unit_s(x: int) -> int {
    if x >= 0 {
        (x + 5) / 10
    } else {
        -(((-x) + 5) / 10)
    }
}

/// A fine point snapped to the nearest grid point.
pub open spec fn round_grid(v: Vec2f) -> Vec2i {
    Vec2i { x: round_unit_s(v.x as int) as i32, y: round_unit_s(v.y as int) as i32 }
}

/// Clamped saturating add of two bounded fine coordinates.
fn sat_add(a: i64, b: i64) -> (r: i64)
    requires
        -GRID_FINE_LIMIT <= a <= GRID_FINE_LIMIT,
        -GRID_FINE_LIMIT <= b <= GRID_FINE_LIMIT,
    ensures
        r == sat_fine(a + b),
{
    let s = a + b;
    if s > GRID_FINE_LIMIT {
        GRID_FINE_LIMIT
    } else if s < -GRID_FINE_LIMIT {
        -GRID_FINE_LIMIT
    } else {
        s
    }
}

/// Snaps a bounded fine point to the nearest grid point, staying within
/// the working range.
fn round_grid_exec(v: Vec2f) -> (r: Vec2i)
    requires
        drag_bounded(v),
    ensures
        r == round_grid(v),
        r.in_bounds(),
{
    round_grid_wide(v)
}

/// Where a drag currently points: the clamped sum of its start and its
/// accumulated delta.
pub open spec fn drag_target(start: Vec2f, dd: Vec2f) -> Vec2f {
    sat_sum(start, dd)
}

/// What leaving the dead zone turns the gesture into, and its effect:
/// empty space starts a box selection or a drawn wire by mode; a selected
/// body starts a whole-selection drag; a wire endpoint picks that point
/// up; drawing over a wire body splits it first.  A press point over an
/// unselected body abandons the gesture (the press itself selected it, so
/// this only happens if the selection changed mid-gesture).
pub open spec fn deadzone_exit_ok(
    pre: CircuitView,
    post: CircuitView,
    start: Vec2f,
    nd: Vec2f,
    mode: DragMode,
    r: bool,
) -> bool {
    let hit = spec_hit_test(pre, start, None);
    let ea = round_grid(drag_target(start, Vec2f { x: 0i64, y: 0i64 }));
    let eb = round_grid(drag_target(start, nd));
    match (hit, mode) {
        (HitTestResult::Miss, DragMode::BoxSelection) => {
            &&& post == (CircuitView {
                drag_state: DragState::DrawingBoxSelection { drag_start: start, drag_delta: nd },
                ..pre
            })
            &&& r == true
        },
        (HitTestResult::Miss, DragMode::DrawWire) => new_wire_draw_ok(pre, post, start, nd, r),
        (HitTestResult::ComponentAnchor(_), DragMode::DrawWire) => new_wire_draw_ok(
            pre,
            post,
            start,
            nd,
            r,
        ),
        (HitTestResult::WirePointA(_), DragMode::DrawWire) => new_wire_draw_ok(
            pre,
            post,
            start,
            nd,
            r,
        ),
        (HitTestResult::WirePointB(_), DragMode::DrawWire) => new_wire_draw_ok(
            pre,
            post,
            start,
            nd,
            r,
        ),
        (HitTestResult::Component(c), _) => {
            if pre.selection.spec_contains_component(c) {
                &&& post == (CircuitView {
                    drag_state: DragState::Dragging { fract_drag_delta: nd },
                    ..pre
                })
                &&& r == true
            } else {
                post == (CircuitView { drag_state: DragState::Idle, ..pre }) && r == false
            }
        },
        (HitTestResult::ComponentAnchor(c), DragMode::BoxSelection) => {
            if pre.selection.spec_contains_component(c) {
                &&& post == (CircuitView {
                    drag_state: DragState::Dragging { fract_drag_delta: nd },
                    ..pre
                })
                &&& r == true
            } else {
                post == (CircuitView { drag_state: DragState::Idle, ..pre }) && r == false
            }
        },
        (HitTestResult::WireSegment(w, _), DragMode::BoxSelection) => {
            if pre.selection.spec_contains_wire_segment(w) {
                &&& post == (CircuitView {
                    drag_state: DragState::Dragging { fract_drag_delta: nd },
                    ..pre
                })
                &&& r == true
            } else {
                post == (CircuitView { drag_state: DragState::Idle, ..pre }) && r == false
            }
        },
        (HitTestResult::WirePointA(w), DragMode::BoxSelection) => {
            &&& post == (CircuitView {
                drag_state: DragState::DraggingWirePointA {
                    wire_segment: w,
                    drag_start: start,
                    drag_delta: nd,
                },
                ..pre
            })
            &&& r == true
        },
        (HitTestResult::WirePointB(w), DragMode::BoxSelection) => {
            &&& post == (CircuitView {
                drag_state: DragState::DraggingWirePointB {
                    wire_segment: w,
                    drag_start: start,
                    drag_delta: nd,
                },
                ..pre
            })
            &&& r == true
        },
        (HitTestResult::WireSegment(w, leg), DragMode::DrawWire) => {
            let old_seg = pre.wire_segments[w as int];
            &&& post.wire_segments.len() == pre.wire_segments.len() + 2
            &&& post.wire_segments[w as int].endpoint_a == old_seg.endpoint_a
            &&& post.wire_segments[w as int].endpoint_b == ea
            &&& post.wire_segments[w as int].midpoints@ == crate::wire::split_left(
                old_seg.midpoints@,
                leg as int,
                ea,
            )
            &&& post.wire_segments[pre.wire_segments.len() as int].endpoint_a == ea
            &&& post.wire_segments[pre.wire_segments.len() as int].endpoint_b == old_seg.endpoint_b
            &&& post.wire_segments[pre.wire_segments.len() as int].midpoints@
                == crate::wire::split_right(old_seg.midpoints@, leg as int, ea)
            &&& post.wire_segments.last().endpoint_a == ea
            &&& post.wire_segments.last().endpoint_b == eb
            &&& post.wire_segments.last().routed()
            &&& post.wire_segments.last().sim_wire is None
            &&& forall|i: int|
                0 <= i < pre.wire_segments.len() && i != w as int
                    ==> #[trigger] post.wire_segments[i] == pre.wire_segments[i]
            &&& post == (CircuitView {
                wire_segments: post.wire_segments,
                drag_state: DragState::DraggingWirePointB {
                    wire_segment: (pre.wire_segments.len() + 1) as usize,
                    drag_start: start,
                    drag_delta: nd,
                },
                ..pre
            })
            &&& r == true
        },
    }
}

/// A fresh zero-or-more-length wire is drawn from the rounded press point
/// to the rounded current point and its far endpoint picked up.
pub open spec fn new_wire_draw_ok(
    pre: CircuitView,
    post: CircuitView,
    start: Vec2f,
    nd: Vec2f,
    r: bool,
) -> bool {
    let ea = round_grid(drag_target(start, Vec2f { x: 0i64, y: 0i64 }));
    let eb = round_grid(drag_target(start, nd));
    &&& post.wire_segments.len() == pre.wire_segments.len() + 1
    &&& post.wire_segments.take(pre.wire_segments.len() as int) == pre.wire_segments
    &&& post.wire_segments.last().endpoint_a == ea
    &&& post.wire_segments.last().endpoint_b == eb
    &&& post.wire_segments.last().routed()
    &&& post.wire_segments.last().sim_wire is None
    &&& post == (CircuitView {
        wire_segments: post.wire_segments,
        drag_state: DragState::DraggingWirePointB {
            wire_segment: pre.wire_segments.len() as usize,
            drag_start: start,
            drag_delta: nd,
        },
        ..pre
    })
    &&& r == true
}

/// Range test for one translated coordinate pair.
fn pt_can_translate(p: Vec2i, d: Vec2i) -> (r: bool)
    ensures
        r == can_translate_pt(p, d),
{
    let nx = (p.x as i64) + (d.x as i64);
    let ny = (p.y as i64) + (d.y as i64);
    -(COORD_LIMIT as i64) <= nx && nx <= (COORD_LIMIT as i64) && -(COORD_LIMIT as i64) <= ny && ny
        <= (COORD_LIMIT as i64)
}

impl Circuit {
    /// Whether the whole selection can move by `d` without leaving the
    /// working range.
    #[verifier::loop_isolation(false)]
    fn can_move_selection(&self, d: Vec2i) -> (r: bool)
        requires
            self@.wf(),
        ensures
            r == move_ok(self@, d),
    {
        let n_all_comps = self.components.len();
        let n_all_segs = self.wire_segments.len();
        match &self.selection {
            Selection::Empty => true,
            Selection::Component(c) => pt_can_translate(self.components[*c].position, d),
            Selection::WireSegment(s) => self.segment_can_translate(*s, d),
            Selection::Multi { components, wire_segments, center } => {
                let nc = components.len();
                for k in 0..nc
                    invariant
                        nc == components@.len(),
                        forall|kk: int|
                            0 <= kk < k ==> can_translate_pt(
                                self@.components[components@[kk] as int].position,
                                d,
                            ),
                {
                    if !pt_can_translate(self.components[components[k]].position, d) {
                        return false;
                    }
                }
                let ns = wire_segments.len();
                for k in 0..ns
                    invariant
                        ns == wire_segments@.len(),
                        forall|kk: int|
                            0 <= kk < k ==> {
                                let s2 = self@.wire_segments[#[trigger] wire_segments@[kk] as int];
                                &&& can_translate_pt(s2.endpoint_a, d)
                                &&& can_translate_pt(s2.endpoint_b, d)
                                &&& forall|m: int|
                                    0 <= m < s2.midpoints@.len() ==> can_translate_pt(
                                        #[trigger] s2.midpoints@[m],
                                        d,
                                    )
                            },
                {
                    if !self.segment_can_translate(wire_segments[k], d) {
                        return false;
                    }
                }
                let cx = center.x + 10 * (d.x as i64);
                let cy = center.y + 10 * (d.y as i64);
                if !(-FINE_LIMIT <= cx && cx <= FINE_LIMIT && -FINE_LIMIT <= cy && cy
                    <= FINE_LIMIT) {
                    return false;
                }
                proof {
                    assert forall|c2: int|
                        0 <= c2 < self@.components.len()
                            && self@.selection.spec_contains_component(c2 as usize)
                        implies can_translate_pt(
                        (#[trigger] self@.components[c2]).position,
                        d,
                    ) by {
                        assert(components@.contains(c2 as usize));
                        let kk = choose|kk: int|
                            0 <= kk < components@.len() && components@[kk] == c2 as usize;
                        assert(components@[kk] == c2 as usize);
                        assert(can_translate_pt(
                            self@.components[components@[kk] as int].position,
                            d,
                        ));
                    }
                    assert forall|i2: int|
                        0 <= i2 < self@.wire_segments.len()
                            && self@.selection.spec_contains_wire_segment(i2 as usize) implies {
                        let s2 = #[trigger] self@.wire_segments[i2];
                        &&& can_translate_pt(s2.endpoint_a, d)
                        &&& can_translate_pt(s2.endpoint_b, d)
                        &&& forall|m: int|
                            0 <= m < s2.midpoints@.len() ==> can_translate_pt(
                                #[trigger] s2.midpoints@[m],
                                d,
                            )
                    } by {
                        let kk = choose|kk: int|
                            0 <= kk < wire_segments@.len() && wire_segments@[kk] == i2 as usize;
                        assert((wire_segments@[kk] as int) == i2);
                    }
                }
                true
            },
        }
    }

    /// Range test for every point of one wire segment.
    #[verifier::loop_isolation(false)]
    fn segment_can_translate(&self, s: usize, d: Vec2i) -> (r: bool)
        requires
            self@.wf(),
            (s as int) < self@.wire_segments.len(),
        ensures
            r == ({
                let seg = self@.wire_segments[s as int];
                &&& can_translate_pt(seg.endpoint_a, d)
                &&& can_translate_pt(seg.endpoint_b, d)
                &&& forall|m: int|
                    0 <= m < seg.midpoints@.len() ==> can_translate_pt(
                        #[trigger] seg.midpoints@[m],
                        d,
                    )
            }),
    {
        let seg = &self.wire_segments[s];
        if !pt_can_translate(seg.endpoint_a, d) || !pt_can_translate(seg.endpoint_b, d) {
            return false;
        }
        let nm = seg.midpoints.len();
        for m in 0..nm
            invariant
                nm == seg.midpoints@.len(),
                forall|mm: int|
                    0 <= mm < m ==> can_translate_pt(#[trigger] seg.midpoints@[mm], d),
        {
            if !pt_can_translate(seg.midpoints[m], d) {
                return false;
            }
        }
        true
    }

    /// Pushes the freshly drawn wire for a starting wire-draw gesture and
    /// picks up its far endpoint.
    fn create_drawn_wire(&mut self, start: Vec2f, nd: Vec2f) -> (r: bool)
        requires
            old(self)@.wf(),
            drag_bounded(start),
            drag_bounded(nd),
        ensures
            final(self)@.wf(),
            new_wire_draw_ok(old(self)@, final(self)@, start, nd, r),
    {
        proof {
            assert(drag_target(start, Vec2f { x: 0i64, y: 0i64 }) == start);
        }
        let ea = round_grid_exec(start);
        let target = Vec2f { x: sat_add(start.x, nd.x), y: sat_add(start.y, nd.y) };
        let eb = round_grid_exec(target);
        let idx = self.wire_segments.len();
        self.wire_segments.push(WireSegment::new(ea, eb));
        self.drag_state = DragState::DraggingWirePointB {
            wire_segment: idx,
            drag_start: start,
            drag_delta: nd,
        };
        proof {
            assert(self@.wire_segments.take(old(self)@.wire_segments.len() as int) =~= old(self)@.wire_segments);
            assert forall|i: int|
                0 <= i < self@.wire_segments.len() implies (
            #[trigger] self@.wire_segments[i]).wf() by {
                if i < old(self)@.wire_segments.len() {
                    assert(self@.wire_segments[i] == old(self)@.wire_segments[i]);
                }
            }
            assert(self@.selection_wf());
            assert(self@.drag_state_wf());
            assert(self@.linear_zoom <= LINEAR_ZOOM_MAX);
            assert(self@.offset.in_bounds());
            assert forall|c: int|
                0 <= c < self@.components.len() implies (#[trigger] self@.components[c]).wf() by {
                assert(self@.components[c] == old(self)@.components[c]);
            }
            assert(self@.wf());
        }
        true
    }

    /// Classifies the gesture once the pointer leaves the dead zone,
    /// hit-testing the original press point.
    #[verifier::rlimit(100)]
    #[verifier::spinoff_prover]
    fn deadzone_exit(&mut self, start: Vec2f, nd: Vec2f, drag_mode: DragMode) -> (r: bool)
        requires
            old(self)@.wf(),
            drag_bounded(start),
            drag_bounded(nd),
        ensures
            final(self)@.wf(),
            deadzone_exit_ok(old(self)@, final(self)@, start, nd, drag_mode, r),
    {
        let ghost pre = self@;
        let nc = self.components.len();
        let ns = self.wire_segments.len();
        let hit = self.hit_test(start, None);
        proof {
            lemma_hit_test_ranges(self@, start, None);
        }
        match (hit, drag_mode) {
            (HitTestResult::Miss, DragMode::BoxSelection) => {
                self.drag_state = DragState::DrawingBoxSelection {
                    drag_start: start,
                    drag_delta: nd,
                };
                true
            },
            (HitTestResult::Miss, DragMode::DrawWire)
            | (HitTestResult::ComponentAnchor(_), DragMode::DrawWire)
            | (HitTestResult::WirePointA(_), DragMode::DrawWire)
            | (HitTestResult::WirePointB(_), DragMode::DrawWire) => {
                self.create_drawn_wire(start, nd)
            },
            (HitTestResult::Component(c), _)
            | (HitTestResult::ComponentAnchor(c), DragMode::BoxSelection) => {
                if self.selection.contains_component(c) {
                    self.drag_state = DragState::Dragging { fract_drag_delta: nd };
                    true
                } else {
                    self.drag_state = DragState::Idle;
                    false
                }
            },
            (HitTestResult::WireSegment(w, _), DragMode::BoxSelection) => {
                if self.selection.contains_wire_segment(w) {
                    self.drag_state = DragState::Dragging { fract_drag_delta: nd };
                    true
                } else {
                    self.drag_state = DragState::Idle;
                    false
                }
            },
            (HitTestResult::WirePointA(w), DragMode::BoxSelection) => {
                self.drag_state = DragState::DraggingWirePointA {
                    wire_segment: w,
                    drag_start: start,
                    drag_delta: nd,
                };
                true
            },
            (HitTestResult::WirePointB(w), DragMode::BoxSelection) => {
                self.drag_state = DragState::DraggingWirePointB {
                    wire_segment: w,
                    drag_start: start,
                    drag_delta: nd,
                };
                true
            },
            (HitTestResult::WireSegment(w, leg), DragMode::DrawWire) => {
                proof {
                    assert(drag_target(start, Vec2f { x: 0i64, y: 0i64 }) == start);
                }
                let ea = round_grid_exec(start);
                let mut tmp = WireSegment {
                    endpoint_a: Vec2i { x: 0, y: 0 },
                    midpoints: Vec::new(),
                    endpoint_b: Vec2i { x: 0, y: 0 },
                    sim_wire: None,
                };
                self.wire_segments.set_and_swap(w, &mut tmp);
                let right_part = tmp.split_at(leg, ea);
                self.wire_segments.set_and_swap(w, &mut tmp);
                self.wire_segments.push(right_part);
                proof {
                    let old_seg = pre.wire_segments[w as int];
                    assert forall|m: int|
                        0 <= m < crate::wire::split_left(old_seg.midpoints@, leg as int, ea).len()
                        implies (#[trigger] crate::wire::split_left(
                        old_seg.midpoints@,
                        leg as int,
                        ea,
                    )[m]).in_bounds() by {
                        assert(crate::wire::split_left(old_seg.midpoints@, leg as int, ea)[m]
                            == old_seg.midpoints@[m]);
                    }
                    assert forall|m: int|
                        0 <= m < crate::wire::split_right(old_seg.midpoints@, leg as int, ea).len()
                        implies (#[trigger] crate::wire::split_right(
                        old_seg.midpoints@,
                        leg as int,
                        ea,
                    )[m]).in_bounds() by {
                        let rr = crate::wire::split_right(old_seg.midpoints@, leg as int, ea);
                        let skipped = old_seg.midpoints@.skip(leg as int);
                        if skipped.len() > 0 && skipped.first() == ea {
                            assert(rr[m] == old_seg.midpoints@[leg + 1 + m]);
                        } else {
                            assert(rr[m] == old_seg.midpoints@[leg + m]);
                        }
                    }
                }
                let target = Vec2f { x: sat_add(start.x, nd.x), y: sat_add(start.y, nd.y) };
                let eb = round_grid_exec(target);
                let idx = self.wire_segments.len();
                self.wire_segments.push(WireSegment::new(ea, eb));
                self.drag_state = DragState::DraggingWirePointB {
                    wire_segment: idx,
                    drag_start: start,
                    drag_delta: nd,
                };
                true
            },
        }
    }

    /// Handles pointer motion by `delta` (fine steps) while the primary
    /// button may be held: accumulates the drag, classifies the gesture
    /// once it leaves the dead zone, rubber-bands a box selection, drags
    /// wire endpoints with re-routing, and drags the whole selection by
    /// whole grid units, carrying the fractional remainder.  Motion that
    /// would push geometry out of the working range is ignored.
    #[verifier::rlimit(100)]
    #[verifier::spinoff_prover]
    pub fn mouse_moved(&mut self, delta: Vec2f, drag_mode: DragMode) -> (r: bool)
        requires
            old(self)@.wf(),
            drag_bounded(delta),
        ensures
            final(self)@.wf(),
            !(old(self)@.primary_down && !old(self)@.secondary_down) ==> final(self)@ == old(self)@ && r == false,
            (old(self)@.primary_down && !old(self)@.secondary_down) ==> match old(self)@.drag_state {
                DragState::Idle => final(self)@ == old(self)@ && r == false,
                DragState::Deadzone { drag_start, drag_delta } => {
                    let nd = sat_sum(drag_delta, delta);
                    if nd.x * nd.x + nd.y * nd.y >= DEADZONE_RANGE * DEADZONE_RANGE {
                        deadzone_exit_ok(
                            (CircuitView { ..old(self)@ }),
                            final(self)@,
                            drag_start,
                            nd,
                            drag_mode,
                            r,
                        )
                    } else {
                        final(self)@ == (CircuitView {
                            drag_state: DragState::Deadzone { drag_start, drag_delta: nd },
                            ..old(self)@
                        }) && r == false
                    }
                },
                DragState::DrawingBoxSelection { drag_start, drag_delta } => {
                    &&& final(self)@ == (CircuitView {
                        drag_state: DragState::DrawingBoxSelection {
                            drag_start,
                            drag_delta: sat_sum(drag_delta, delta),
                        },
                        ..old(self)@
                    })
                    &&& r == true
                },
                DragState::DraggingWirePointA { wire_segment, drag_start, drag_delta } => {
                    let nd = sat_sum(drag_delta, delta);
                    let na = round_grid(drag_target(drag_start, nd));
                    &&& dragged_point_ok(old(self)@, final(self)@, wire_segment, na, true)
                    &&& final(self)@ == (CircuitView {
                        wire_segments: final(self)@.wire_segments,
                        drag_state: DragState::DraggingWirePointA {
                            wire_segment,
                            drag_start,
                            drag_delta: nd,
                        },
                        ..old(self)@
                    })
                    &&& r == true
                },
                DragState::DraggingWirePointB { wire_segment, drag_start, drag_delta } => {
                    let nd = sat_sum(drag_delta, delta);
                    let nb = round_grid(drag_target(drag_start, nd));
                    &&& dragged_point_ok(old(self)@, final(self)@, wire_segment, nb, false)
                    &&& final(self)@ == (CircuitView {
                        wire_segments: final(self)@.wire_segments,
                        drag_state: DragState::DraggingWirePointB {
                            wire_segment,
                            drag_start,
                            drag_delta: nd,
                        },
                        ..old(self)@
                    })
                    &&& r == true
                },
                DragState::Dragging { fract_drag_delta } => {
                    let acc = Vec2f {
                        x: (fract_drag_delta.x + delta.x) as i64,
                        y: (fract_drag_delta.y + delta.y) as i64,
                    };
                    let whole = round_grid(acc);
                    let rest = Vec2f {
                        x: (acc.x - FINE_STEPS * whole.x) as i64,
                        y: (acc.y - FINE_STEPS * whole.y) as i64,
                    };
                    let mid = CircuitView {
                        drag_state: DragState::Dragging { fract_drag_delta: rest },
                        ..old(self)@
                    };
                    if whole == (Vec2i { x: 0i32, y: 0i32 }) {
                        final(self)@ == mid && r == false
                    } else if move_ok(mid, whole) {
                        moved_from(mid, final(self)@, whole) && r == true
                    } else {
                        final(self)@ == mid && r == false
                    }
                },
            },
    {
        if !(self.primary_button_down && !self.secondary_button_down) {
            return false;
        }
        let drag = self.drag_state;
        match drag {
            DragState::Idle => false,
            DragState::Deadzone { drag_start, drag_delta } => {
                let nd = Vec2f {
                    x: sat_add(drag_delta.x, delta.x),
                    y: sat_add(drag_delta.y, delta.y),
                };
                let dx: i128 = nd.x as i128;
                let dy: i128 = nd.y as i128;
                proof {
                    crate::math::lemma_mul_bound(dx as int, dx as int, GRID_FINE_LIMIT as int);
                    crate::math::lemma_mul_bound(dy as int, dy as int, GRID_FINE_LIMIT as int);
                }
                if dx * dx + dy * dy >= (DEADZONE_RANGE as i128) * (DEADZONE_RANGE as i128) {
                    self.deadzone_exit(drag_start, nd, drag_mode)
                } else {
                    self.drag_state = DragState::Deadzone { drag_start, drag_delta: nd };
                    false
                }
            },
            DragState::DrawingBoxSelection { drag_start, drag_delta } => {
                self.drag_state = DragState::DrawingBoxSelection {
                    drag_start,
                    drag_delta: Vec2f {
                        x: sat_add(drag_delta.x, delta.x),
                        y: sat_add(drag_delta.y, delta.y),
                    },
                };
                true
            },
            DragState::DraggingWirePointA { wire_segment, drag_start, drag_delta } => {
                let nd = Vec2f {
                    x: sat_add(drag_delta.x, delta.x),
                    y: sat_add(drag_delta.y, delta.y),
                };
                let target = Vec2f {
                    x: sat_add(drag_start.x, nd.x),
                    y: sat_add(drag_start.y, nd.y),
                };
                let na = round_grid_exec(target);
                self.set_dragged_point(wire_segment, na, true);
                self.drag_state = DragState::DraggingWirePointA {
                    wire_segment,
                    drag_start,
                    drag_delta: nd,
                };
                true
            },
            DragState::DraggingWirePointB { wire_segment, drag_start, drag_delta } => {
                let nd = Vec2f {
                    x: sat_add(drag_delta.x, delta.x),
                    y: sat_add(drag_delta.y, delta.y),
                };
                let target = Vec2f {
                    x: sat_add(drag_start.x, nd.x),
                    y: sat_add(drag_start.y, nd.y),
                };
                let nb = round_grid_exec(target);
                self.set_dragged_point(wire_segment, nb, false);
                self.drag_state = DragState::DraggingWirePointB {
                    wire_segment,
                    drag_start,
                    drag_delta: nd,
                };
                true
            },
            DragState::Dragging { fract_drag_delta } => {
                let acc = Vec2f {
                    x: fract_drag_delta.x + delta.x,
                    y: fract_drag_delta.y + delta.y,
                };
                let whole = round_grid_wide(acc);
                let rest = Vec2f { x: acc.x - 10 * (whole.x as i64), y: acc.y - 10 * (whole.y as i64) };
                self.drag_state = DragState::Dragging { fract_drag_delta: rest };
                if whole.x == 0 && whole.y == 0 {
                    false
                } else if self.can_move_selection(whole) {
                    self.move_selection(whole);
                    true
                } else {
                    false
                }
            },
        }
    }

    /// Moves one drawn endpoint of the dragged segment and re-routes its
    /// mid-points if the grid point actually changed.
    fn set_dragged_point(&mut self, w: usize, np: Vec2i, is_a: bool)
        requires
            old(self)@.wf(),
            (w as int) < old(self)@.wire_segments.len(),
            np.in_bounds(),
        ensures
            final(self)@.wf(),
            final(self)@ == (CircuitView {
                wire_segments: final(self)@.wire_segments,
                ..old(self)@
            }),
            dragged_point_ok(old(self)@, final(self)@, w, np, is_a),
    {
        let unchanged = if is_a {
            self.wire_segments[w].endpoint_a == np
        } else {
            self.wire_segments[w].endpoint_b == np
        };
        if unchanged {
            return ;
        }
        let mut tmp = WireSegment {
            endpoint_a: Vec2i { x: 0, y: 0 },
            midpoints: Vec::new(),
            endpoint_b: Vec2i { x: 0, y: 0 },
            sim_wire: None,
        };
        self.wire_segments.set_and_swap(w, &mut tmp);
        if is_a {
            tmp.endpoint_a = np;
        } else {
            tmp.endpoint_b = np;
        }
        tmp.update_midpoints();
        self.wire_segments.set_and_swap(w, &mut tmp);
    }
}

/// The dragged endpoint of segment `w` now sits at `np`: if that is where
/// it already was, nothing changes; otherwise the endpoint moves and the
/// mid-points are re-routed.  Other segments are untouched.
pub open spec fn dragged_point_ok(
    pre: CircuitView,
    post: CircuitView,
    w: usize,
    np: Vec2i,
    is_a: bool,
) -> bool {
    let old_seg = pre.wire_segments[w as int];
    let new_seg = post.wire_segments[w as int];
    &&& post.wire_segments.len() == pre.wire_segments.len()
    &&& forall|i: int|
        0 <= i < pre.wire_segments.len() && i != w as int ==> #[trigger] post.wire_segments[i]
            == pre.wire_segments[i]
    &&& if (if is_a {
        old_seg.endpoint_a
    } else {
        old_seg.endpoint_b
    }) == np {
        new_seg == old_seg
    } else {
        &&& new_seg.endpoint_a == (if is_a {
            np
        } else {
            old_seg.endpoint_a
        })
        &&& new_seg.endpoint_b == (if is_a {
            old_seg.endpoint_b
        } else {
            np
        })
        &&& new_seg.routed()
        &&& new_seg.sim_wire == old_seg.sim_wire
    }
}

/// Snaps a fine point within twice the working range to the nearest grid
/// point.
fn round_grid_wide(v: Vec2f) -> (r: Vec2i)
    requires
        -2 * GRID_FINE_LIMIT <= v.x <= 2 * GRID_FINE_LIMIT,
        -2 * GRID_FINE_LIMIT <= v.y <= 2 * GRID_FINE_LIMIT,
    ensures
        r == round_grid(v),
{
    let qx = crate::math::round_unit(v.x);
    let qy = crate::math::round_unit(v.y);
    proof {
        assert(qx as int == round_unit_s(v.x as int) && qy as int == round_unit_s(v.y as int))
            by {
            if v.x >= 0 {
                assert(10 * (qx as int) <= v.x + 5 < 10 * (qx as int + 1));
            } else {
                assert(10 * (qx as int) >= v.x - 5 > 10 * (qx as int - 1));
                assert((-(v.x as int)) + 5 < 10 * ((-(qx as int)) + 1));
            }
            if v.y >= 0 {
                assert(10 * (qy as int) <= v.y + 5 < 10 * (qy as int + 1));
            } else {
                assert(10 * (qy as int) >= v.y - 5 > 10 * (qy as int - 1));
                assert((-(v.y as int)) + 5 < 10 * ((-(qy as int)) + 1));
            }
        }
    }
    Vec2i { x: qx as i32, y: qy as i32 }
}

/// Why a simulation could not be started.
#[derive(Clone, Copy, Debug, PartialEq, Eq, Structural)]
pub enum StartSimError {
    /// Anchors of two different declared widths touch one wire group;
    /// the simulation must not start on an inconsistent net.
    WidthConflict,
    /// The circuit holds a splitter, whose netlist form this engine does
    /// not define.
    SplitterUnsupported,
    /// The simulator refused part of the graph (capacity, or a gate
    /// whose port widths disagree with its nets).
    SimulatorRejected,
}

/// Whether any placed component is a splitter.
pub open spec fn has_splitter(comps: Seq<Component>) -> bool {
    exists|c: int|
        0 <= c < comps.len() && (#[trigger] comps[c]).kind matches ComponentKind::Splitter { .. }
}

/// Anchor `k` of component `c` sits on an endpoint of segment `i`.
pub open spec fn anchor_on_net(
    s: Seq<WireSegment>,
    comps: Seq<Component>,
    c: int,
    k: int,
    i: int,
) -> bool {
    &&& 0 <= c < comps.len()
    &&& 0 <= k < comps[c].spec_anchors().len()
    &&& 0 <= i < s.len()
    &&& crate::netlist::anchor_touches_seg(comps[c].spec_anchors()[k], s[i])
}

/// Two anchors of different declared widths touch wire segments joined
/// by shared endpoints: width inference must fail.
pub open spec fn width_conflict_exists(s: Seq<WireSegment>, comps: Seq<Component>) -> bool {
    exists|c1: int, k1: int, i1: int, c2: int, k2: int, i2: int|
        #[trigger] anchor_on_net(s, comps, c1, k1, i1) && #[trigger] anchor_on_net(
            s,
            comps,
            c2,
            k2,
            i2,
        ) && crate::netlist::reachable(s, i1, i2) && comps[c1].spec_anchors()[k1].width != comps[
            c2].spec_anchors()[k2].width
}

/// The circuit as the editor sees it is untouched: only simulation
/// caches and the simulation state may differ.
pub open spec fn same_editor_state(pre: CircuitView, post: CircuitView) -> bool {
    &&& post.name == pre.name
    &&& post.offset == pre.offset
    &&& post.linear_zoom == pre.linear_zoom
    &&& post.selection == pre.selection
    &&& post.drag_state == pre.drag_state
    &&& post.primary_down == pre.primary_down
    &&& post.secondary_down == pre.secondary_down
    &&& post.components.len() == pre.components.len()
    &&& forall|c: int|
        0 <= c < pre.components.len() ==> {
            let x = #[trigger] pre.components[c];
            let y = post.components[c];
            y.kind == x.kind && y.position == x.position && y.rotation == x.rotation && y.mirrored
                == x.mirrored
        }
    &&& post.wire_segments.len() == pre.wire_segments.len()
    &&& forall|i: int|
        0 <= i < pre.wire_segments.len() ==> {
            let x = #[trigger] pre.wire_segments[i];
            let y = post.wire_segments[i];
            y.endpoint_a == x.endpoint_a && y.endpoint_b == x.endpoint_b && y.midpoints@
                == x.midpoints@
        }
}

/// Every simulation cache is empty.
pub open spec fn sim_caches_clear(v: CircuitView) -> bool {
    &&& v.sim_state is Inactive
    &&& forall|c: int|
        0 <= c < v.components.len() ==> (#[trigger] v.components[c]).sim_anchor_wires@.len() == 0
            && v.components[c].sim_drive_wire is None
    &&& forall|i: int| 0 <= i < v.wire_segments.len() ==> (#[trigger] v.wire_segments[i]).sim_wire is None
}

/// Well-formedness does not depend on the simulation state.
pub proof fn lemma_wf_ignores_sim_state(v1: CircuitView, v2: CircuitView)
    requires
        v1.wf(),
        v2 == (CircuitView { sim_state: v2.sim_state, ..v1 }),
    ensures
        v2.wf(),
{
    assert forall|c: int| 0 <= c < v2.components.len() implies (
    #[trigger] v2.components[c]).wf() by {
        assert(v2.components[c] == v1.components[c]);
    }
    assert forall|i: int| 0 <= i < v2.wire_segments.len() implies (
    #[trigger] v2.wire_segments[i]).wf() by {
        assert(v2.wire_segments[i] == v1.wire_segments[i]);
    }
}

impl Circuit {
    /// Detaches any simulation and clears every cached simulator handle,
    /// so that the next start rebuilds cleanly.
    #[verifier::loop_isolation(false)]
    pub fn stop_simulation(&mut self)
        requires
            old(self)@.wf(),
        ensures
            final(self)@.wf(),
            same_editor_state(old(self)@, final(self)@),
            sim_caches_clear(final(self)@),
    {
        self.sim_state = SimState::Inactive;
        let nc = self.components.len();
        let ghost pre = self@;
        proof {
            lemma_wf_ignores_sim_state(old(self)@, pre);
            assert forall|c2: int| 0 <= c2 < pre.components.len() implies (
            #[trigger] pre.components[c2]).wf() by {
                assert(pre.components[c2] == old(self)@.components[c2]);
            }
        }
        for c in 0..nc
            invariant
                nc == self@.components.len() == pre.components.len(),
                self@ == (CircuitView { components: self@.components, ..pre }),
                forall|c2: int|
                    0 <= c2 < nc ==> {
                        let x = pre.components[c2];
                        let y = #[trigger] self@.components[c2];
                        y.kind == x.kind && y.position == x.position && y.rotation == x.rotation
                            && y.mirrored == x.mirrored && y.wf()
                    },
                forall|c2: int|
                    0 <= c2 < c ==> (#[trigger] self@.components[c2]).sim_anchor_wires@.len() == 0
                        && self@.components[c2].sim_drive_wire is None,
        {
            let mut tmp = Component::new(ComponentKind::new_and_gate());
            self.components.set_and_swap(c, &mut tmp);
            tmp.reset_sim_ids();
            self.components.set_and_swap(c, &mut tmp);
        }
        let ns = self.wire_segments.len();
        let ghost mid = self@;
        for i in 0..ns
            invariant
                ns == self@.wire_segments.len() == pre.wire_segments.len(),
                self@ == (CircuitView { wire_segments: self@.wire_segments, ..mid }),
                forall|i2: int|
                    0 <= i2 < ns ==> {
                        let x = pre.wire_segments[i2];
                        let y = #[trigger] self@.wire_segments[i2];
                        y.endpoint_a == x.endpoint_a && y.endpoint_b == x.endpoint_b && y.midpoints@
                            == x.midpoints@ && y.wf()
                    },
                forall|i2: int| 0 <= i2 < i ==> (#[trigger] self@.wire_segments[i2]).sim_wire is None,
        {
            let mut tmp = WireSegment {
                endpoint_a: Vec2i { x: 0, y: 0 },
                midpoints: Vec::new(),
                endpoint_b: Vec2i { x: 0, y: 0 },
                sim_wire: None,
            };
            self.wire_segments.set_and_swap(i, &mut tmp);
            tmp.sim_wire = None;
            self.wire_segments.set_and_swap(i, &mut tmp);
        }
    }

    /// Advances an attached, settled simulation by one clock phase:
    /// every clock input's drive is toggled and the simulation re-run
    /// with the given step budget.
    #[verifier::loop_isolation(false)]
    pub fn step_simulation(&mut self, max_steps: u64) -> (r: SimRunStatus)
        requires
            old(self)@.wf(),
            old(self)@.sim_state is Active,
        ensures
            final(self)@.wf(),
            same_editor_state(old(self)@, final(self)@),
            match r {
                SimRunStatus::Settled => final(self)@.sim_state matches SimState::Active {
                    clock_state: cs,
                    ..
                } && cs == !(old(self)@.sim_state->Active_clock_state),
                SimRunStatus::MaxStepsReached => final(self)@.sim_state is Inactive,
                SimRunStatus::DriverConflict => final(self)@.sim_state matches SimState::Conflict {
                    conflict_segments,
                    ..
                } && index_list_wf(conflict_segments@, old(self)@.wire_segments.len() as int)
                    && (exists|hs: Seq<gsim::WireId>|
                    #[trigger] conflict_map_ok(
                        old(self)@.wire_segments,
                        hs,
                        conflict_segments@,
                    )),
            },
    {
        let mut sim_state = SimState::Inactive;
        core::mem::swap(&mut sim_state, &mut self.sim_state);
        proof {
            lemma_wf_ignores_sim_state(old(self)@, self@);
        }
        match sim_state {
            SimState::Active { mut sim, clock_state } => {
                let clk = !clock_state;
                let drive: u32 = if clk {
                    1
                } else {
                    0
                };
                let nc = self.components.len();
                let ghost pre = self@;
                for c in 0..nc
                    invariant
                        nc == self@.components.len(),
                        self@ == pre,
                {
                    let is_clock = match &self.components[c].kind {
                        ComponentKind::ClockInput { .. } => true,
                        _ => false,
                    };
                    if is_clock {
                        match &self.components[c].sim_drive_wire {
                            Some(w) => {
                                let w = *w;
                                crate::sim::sim_set_wire_drive(&mut sim, w, drive);
                            },
                            None => {},
                        }
                    }
                }
                self.advance_simulation(sim, clk, max_steps)
            },
            _ => {
                // Unreachable under the precondition; leave the circuit
                // inert.
                SimRunStatus::MaxStepsReached
            },
        }
    }
}

/// The first segment (in array order) with a drawn endpoint at `pos`.
pub open spec fn first_seg_at(s: Seq<WireSegment>, pos: Vec2i, i: int) -> Option<int>
    decreases s.len() - i,
{
    if i < 0 || i >= s.len() {
        None
    } else if s[i].endpoint_a == pos || s[i].endpoint_b == pos {
        Some(i)
    } else {
        first_seg_at(s, pos, i + 1)
    }
}

/// A found segment index lies within the vector.
proof fn lemma_first_seg_at_range(s: Seq<WireSegment>, pos: Vec2i, i: int)
    ensures
        first_seg_at(s, pos, i) matches Some(j) ==> i <= j < s.len(),
    decreases s.len() - i,
{
    if 0 <= i < s.len() {
        lemma_first_seg_at_range(s, pos, i + 1);
    }
}

/// How an anchor resolves to the net under it: the cached simulator wire
/// of the first segment with a drawn endpoint at `pos`, `None` when no
/// segment touches the position or the touching one carries no wire.
fn find_wire_for_pos(segments: &Vec<WireSegment>, pos: Vec2i) -> (r: Option<gsim::WireId>)
    ensures
        match first_seg_at(segments@, pos, 0) {
            Some(i) => r == segments@[i].sim_wire,
            None => r is None,
        },
{
    let ns = segments.len();
    for i in 0..ns
        invariant
            ns == segments@.len(),
            first_seg_at(segments@, pos, 0) == first_seg_at(segments@, pos, i as int),
    {
        if segments[i].endpoint_a == pos || segments[i].endpoint_b == pos {
            match &segments[i].sim_wire {
                Some(w) => {
                    return Some(*w);
                },
                None => {
                    return None;
                },
            }
        }
        proof {
            assert(first_seg_at(segments@, pos, i as int) == first_seg_at(
                segments@,
                pos,
                i + 1 as int,
            ));
        }
    }
    None
}

impl Circuit {
    /// Whether any placed component is a splitter (executable).
    #[verifier::loop_isolation(false)]
    fn find_splitter(&self) -> (r: bool)
        ensures
            r == has_splitter(self@.components),
    {
        let nc = self.components.len();
        for c in 0..nc
            invariant
                forall|c2: int|
                    0 <= c2 < c ==> !((#[trigger] self@.components[c2]).kind matches
                        ComponentKind::Splitter { .. }),
        {
            match &self.components[c].kind {
                ComponentKind::Splitter { .. } => {
                    proof {
                        assert(self@.components[c as int].kind matches ComponentKind::Splitter {
                            ..
                        });
                    }
                    return true;
                },
                _ => {},
            }
        }
        false
    }

    /// Resolves every anchor to the simulator wire of the net whose
    /// segment endpoint coincides with it, adding a fresh wire for each
    /// unconnected anchor and a private drive wire for each port, and
    /// caches them on the components.  `Err` means the simulator refused
    /// a wire; the circuit stays editor-equal either way.
    #[verifier::loop_isolation(false)]
    #[verifier::rlimit(100)]
    #[verifier::spinoff_prover]
    fn resolve_anchor_wires(
        &mut self,
        builder: &mut gsim::SimulatorBuilder,
        map: &Vec<usize>,
        group_wires: &Vec<gsim::WireId>,
    ) -> (r: Result<(), ()>)
        requires
            old(self)@.wf(),
            map@.len() == old(self)@.wire_segments.len(),
            forall|i: int| 0 <= i < map@.len() ==> (#[trigger] map@[i] as int) < group_wires@.len(),
            forall|i: int|
                0 <= i < old(self)@.wire_segments.len()
                    ==> #[trigger] old(self)@.wire_segments[i].sim_wire == Some(
                    group_wires@[map@[i] as int],
                ),
        ensures
            final(self)@.wf(),
            final(self)@ == (CircuitView { components: final(self)@.components, ..old(self)@ }),
            same_editor_state(old(self)@, final(self)@),
            r matches Ok(u) ==> {
                &&& forall|c2: int|
                    0 <= c2 < final(self)@.components.len() ==> (#[trigger] final(self)@.components[c2]).sim_anchor_wires@.len() == final(self)@.components[c2].spec_anchors().len()
                &&& forall|c2: int, k2: int|
                    #![trigger final(self)@.components[c2].sim_anchor_wires@[k2]]
                    0 <= c2 < final(self)@.components.len() && 0 <= k2 < final(self)@.components[c2].spec_anchors().len() ==> match first_seg_at(
                        final(self)@.wire_segments,
                        final(self)@.components[c2].spec_anchors()[k2].position,
                        0,
                    ) {
                        Some(si) => Some(final(self)@.components[c2].sim_anchor_wires@[k2])
                            == final(self)@.wire_segments[si].sim_wire,
                        None => true,
                    }
            },
    {
        let ns = map.len();
        // Resolve every anchor to a wire, adding fresh wires for
        // unconnected anchors.
        let nc = self.components.len();
        let ghost assigned = self@;
        for c in 0..nc
            invariant
                nc == self@.components.len(),
                self@ == (CircuitView { components: self@.components, ..assigned }),
                same_editor_state(old(self)@, self@),
                self@.wf(),
                map@.len() == ns,
                group_wires@.len() == group_wires@.len(),
                forall|i2: int| 0 <= i2 < ns ==> (#[trigger] map@[i2] as int) < group_wires@.len(),
                forall|i2: int|
                    0 <= i2 < ns ==> #[trigger] self@.wire_segments[i2].sim_wire == Some(
                        group_wires@[map@[i2] as int],
                    ),
                forall|c2: int|
                    0 <= c2 < c ==> (#[trigger] self@.components[c2]).sim_anchor_wires@.len()
                        == self@.components[c2].spec_anchors().len(),
                forall|c2: int, k2: int|
                    #![trigger self@.components[c2].sim_anchor_wires@[k2]]
                    0 <= c2 < c && 0 <= k2 < self@.components[c2].spec_anchors().len()
                        ==> match first_seg_at(
                        self@.wire_segments,
                        self@.components[c2].spec_anchors()[k2].position,
                        0,
                    ) {
                        Some(si) => Some(self@.components[c2].sim_anchor_wires@[k2])
                            == self@.wire_segments[si].sim_wire,
                        None => true,
                    },
        {
            proof {
                crate::netlist::lemma_anchor_widths_positive(self@.components[c as int]);
            }
            let anchors = self.components[c].anchors();
            let mut wires: Vec<gsim::WireId> = Vec::new();
            let nk = anchors.len();
            for k in 0..nk
                invariant
                    nk == anchors@.len(),
                    anchors@ == self@.components[c as int].spec_anchors(),
                    wires@.len() == k,
                    (c as int) < self@.components.len(),
                    forall|k2: int| 0 <= k2 < nk ==> (#[trigger] anchors@[k2]).width >= 1,
                    self@ == (CircuitView { components: self@.components, ..assigned }),
                    same_editor_state(old(self)@, self@),
                    self@.wf(),
                    forall|i2: int|
                        0 <= i2 < ns ==> #[trigger] self@.wire_segments[i2].sim_wire == Some(
                            group_wires@[map@[i2] as int],
                        ),
                    forall|c2: int|
                        0 <= c2 < c ==> (#[trigger] self@.components[c2]).sim_anchor_wires@.len()
                            == self@.components[c2].spec_anchors().len(),
                    forall|c2: int, k2: int|
                        #![trigger self@.components[c2].sim_anchor_wires@[k2]]
                        0 <= c2 < c && 0 <= k2 < self@.components[c2].spec_anchors().len()
                            ==> match first_seg_at(
                            self@.wire_segments,
                            self@.components[c2].spec_anchors()[k2].position,
                            0,
                        ) {
                            Some(si) => Some(self@.components[c2].sim_anchor_wires@[k2])
                                == self@.wire_segments[si].sim_wire,
                            None => true,
                        },
                    forall|k2: int|
                        #![trigger wires@[k2]]
                        0 <= k2 < k ==> match first_seg_at(
                            self@.wire_segments,
                            anchors@[k2].position,
                            0,
                        ) {
                            Some(si) => Some(wires@[k2]) == self@.wire_segments[si].sim_wire,
                            None => true,
                        },
            {
                let a = anchors[k];
                proof {
                    lemma_first_seg_at_range(self@.wire_segments, anchors@[k as int].position, 0);
                }
                let found = find_wire_for_pos(&self.wire_segments, a.position);
                match found {
                    Some(w) => {
                        wires.push(w);
                    },
                    None => {
                        match crate::sim::builder_add_wire(builder, a.width) {
                            Some(w) => {
                                wires.push(w);
                            },
                            None => {
                                return Err(());
                            },
                        }
                    },
                }
            }
            let is_port = match &self.components[c].kind {
                ComponentKind::Input { .. } => true,
                ComponentKind::ClockInput { .. } => true,
                _ => false,
            };
            let drive_wire = if is_port {
                match crate::sim::builder_add_wire(builder, anchors[0].width) {
                    Some(w) => Some(w),
                    None => {
                        return Err(());
                    },
                }
            } else {
                None
            };
            let ghost before = self@.components[c as int];
            let mut tmp = Component::new(ComponentKind::new_and_gate());
            self.components.set_and_swap(c, &mut tmp);
            tmp.sim_anchor_wires = wires;
            tmp.sim_drive_wire = drive_wire;
            self.components.set_and_swap(c, &mut tmp);
            proof {
                crate::component::lemma_anchors_ignore_wires(before, self@.components[c as int]);
            }
        }

        Ok(())
    }

    /// Builds the netlist and starts a simulation: wire segments are
    /// grouped into nets through shared endpoints, each net's bit width
    /// is inferred from the anchors touching it (defaulting to one),
    /// every anchor resolves to its net's simulator wire (or a fresh
    /// unconnected wire), gates and drives are registered, and the
    /// simulation is run with the given step budget.
    ///
    /// A circuit with a splitter, or with a width conflict, does not
    /// start; a width conflict is reported exactly when two anchors of
    /// different declared widths touch connected segments.
    #[verifier::loop_isolation(false)]
    #[verifier::rlimit(100)]
    #[verifier::spinoff_prover]
    pub fn start_simulation(&mut self, max_steps: u64) -> (r: Result<SimRunStatus, StartSimError>)
        requires
            old(self)@.wf(),
        ensures
            final(self)@.wf(),
            same_editor_state(old(self)@, final(self)@),
            (r == Err::<SimRunStatus, StartSimError>(StartSimError::SplitterUnsupported)) <==> has_splitter(
                old(self)@.components,
            ),
            r == Err::<SimRunStatus, StartSimError>(StartSimError::WidthConflict)
                ==> width_conflict_exists(old(self)@.wire_segments, old(self)@.components),
            (!has_splitter(old(self)@.components) && old(self)@.wire_segments.len() < usize::MAX
                && width_conflict_exists(old(self)@.wire_segments, old(self)@.components)) ==> r
                == Err::<SimRunStatus, StartSimError>(StartSimError::WidthConflict),
            r == Err::<SimRunStatus, StartSimError>(StartSimError::SplitterUnsupported) || r
                == Err::<SimRunStatus, StartSimError>(StartSimError::WidthConflict) ==> final(self)@ == old(self)@,
            r == Err::<SimRunStatus, StartSimError>(StartSimError::SimulatorRejected)
                ==> sim_caches_clear(final(self)@),
            r matches Ok(st) ==> match st {
                SimRunStatus::Settled => final(self)@.sim_state matches SimState::Active {
                    clock_state: cs,
                    ..
                } && cs == false,
                SimRunStatus::MaxStepsReached => final(self)@.sim_state is Inactive,
                SimRunStatus::DriverConflict => final(self)@.sim_state matches SimState::Conflict {
                    conflict_segments,
                    ..
                } && index_list_wf(conflict_segments@, final(self)@.wire_segments.len() as int)
                    && (exists|hs: Seq<gsim::WireId>|
                    #[trigger] conflict_map_ok(
                        final(self)@.wire_segments,
                        hs,
                        conflict_segments@,
                    )),
            },
            // Every anchor over a wired endpoint carries that net's wire.
            r matches Ok(st) ==> forall|c: int, k: int|
                #![trigger final(self)@.components[c].sim_anchor_wires@[k]]
                0 <= c < final(self)@.components.len() && 0 <= k < final(self)@.components[c].spec_anchors().len() ==> match first_seg_at(
                    final(self)@.wire_segments,
                    final(self)@.components[c].spec_anchors()[k].position,
                    0,
                ) {
                    Some(si) => Some(final(self)@.components[c].sim_anchor_wires@[k]) == final(self)@.wire_segments[si].sim_wire,
                    None => true,
                },
            // Segments of one net share one simulator wire.
            r matches Ok(st) ==> forall|i: int, j: int|
                0 <= i < old(self)@.wire_segments.len() && 0 <= j < old(self)@.wire_segments.len() && #[trigger] crate::netlist::reachable(
                    old(self)@.wire_segments,
                    i,
                    j,
                ) ==> final(self)@.wire_segments[i].sim_wire == final(self)@.wire_segments[j].sim_wire,
            r matches Ok(st) ==> forall|i: int|
                0 <= i < final(self)@.wire_segments.len() ==> (#[trigger] final(self)@.wire_segments[i]).sim_wire is Some,
            r matches Ok(st) ==> forall|c: int|
                0 <= c < final(self)@.components.len() ==> (#[trigger] final(self)@.components[c]).sim_anchor_wires@.len() == final(self)@.components[c].spec_anchors().len(),
    {
        let ghost pre = self@;
        if self.find_splitter() {
            return Err(StartSimError::SplitterUnsupported);
        }
        if self.wire_segments.len() == usize::MAX {
            self.stop_simulation();
            return Err(StartSimError::SimulatorRejected);
        }

        let (groups, map) = crate::netlist::wire_groups(&self.wire_segments);
        let n_groups = groups.len();
        let widths = match crate::netlist::group_widths(
            &self.wire_segments,
            &self.components,
            &map,
            n_groups,
        ) {
            Ok(ws) => {
                proof {
                    if width_conflict_exists(pre.wire_segments, pre.components) {
                        let (c1, k1, i1, c2, k2, i2): (int, int, int, int, int, int) = choose|
                            c1: int,
                            k1: int,
                            i1: int,
                            c2: int,
                            k2: int,
                            i2: int,
                        |
                            #[trigger] anchor_on_net(pre.wire_segments, pre.components, c1, k1, i1)
                                && #[trigger] anchor_on_net(
                                pre.wire_segments,
                                pre.components,
                                c2,
                                k2,
                                i2,
                            ) && crate::netlist::reachable(pre.wire_segments, i1, i2)
                                && pre.components[c1].spec_anchors()[k1].width != pre.components[
                                c2].spec_anchors()[k2].width;
                        crate::netlist::lemma_reachable_same_group(
                            pre.wire_segments,
                            map@,
                            i1,
                            i2,
                        );
                        let g = map@[i1] as int;
                        assert(crate::netlist::group_has_width(
                            pre.wire_segments,
                            pre.components,
                            map@,
                            g,
                            pre.components[c1].spec_anchors()[k1].width,
                        ));
                        assert(crate::netlist::group_has_width(
                            pre.wire_segments,
                            pre.components,
                            map@,
                            g,
                            pre.components[c2].spec_anchors()[k2].width,
                        ));
                        assert(false);
                    }
                }
                ws
            },
            Err(_) => {
                proof {
                    let (g, w1, w2): (int, u8, u8) = choose|g: int, w1: u8, w2: u8|
                        0 <= g < n_groups && w1 != w2 && #[trigger] crate::netlist::group_has_width(
                            pre.wire_segments,
                            pre.components,
                            map@,
                            g,
                            w1,
                        ) && #[trigger] crate::netlist::group_has_width(
                            pre.wire_segments,
                            pre.components,
                            map@,
                            g,
                            w2,
                        );
                    let (c1, k1, i1): (int, int, int) = choose|c1: int, k1: int, i1: int|
                        #![trigger pre.components[c1].spec_anchors()[k1], map@[i1]]
                        0 <= c1 < pre.components.len() && 0 <= k1 < pre.components[
                            c1].spec_anchors().len() && 0 <= i1 < pre.wire_segments.len() && map@[
                            i1] as int == g && crate::netlist::anchor_touches_seg(
                            pre.components[c1].spec_anchors()[k1],
                            pre.wire_segments[i1],
                        ) && pre.components[c1].spec_anchors()[k1].width == w1;
                    let (c2, k2, i2): (int, int, int) = choose|c2: int, k2: int, i2: int|
                        #![trigger pre.components[c2].spec_anchors()[k2], map@[i2]]
                        0 <= c2 < pre.components.len() && 0 <= k2 < pre.components[
                            c2].spec_anchors().len() && 0 <= i2 < pre.wire_segments.len() && map@[
                            i2] as int == g && crate::netlist::anchor_touches_seg(
                            pre.components[c2].spec_anchors()[k2],
                            pre.wire_segments[i2],
                        ) && pre.components[c2].spec_anchors()[k2].width == w2;
                    assert(anchor_on_net(pre.wire_segments, pre.components, c1, k1, i1));
                    assert(anchor_on_net(pre.wire_segments, pre.components, c2, k2, i2));
                    assert(width_conflict_exists(pre.wire_segments, pre.components));
                }
                return Err(StartSimError::WidthConflict);
            },
        };

        self.stop_simulation();

        // One simulator wire per net.
        let mut builder = crate::sim::builder_new();
        let mut group_wires: Vec<gsim::WireId> = Vec::new();
        for g in 0..n_groups
            invariant
                group_wires@.len() == g,
                widths@.len() == n_groups,
                forall|g2: int| 0 <= g2 < n_groups ==> #[trigger] widths@[g2] >= 1,
                same_editor_state(pre, self@),
                sim_caches_clear(self@),
                self@.wf(),
        {
            match crate::sim::builder_add_wire(&mut builder, widths[g]) {
                Some(w) => {
                    group_wires.push(w);
                },
                None => {
                    self.stop_simulation();
                    return Err(StartSimError::SimulatorRejected);
                },
            }
        }

        // Hand every segment its net's wire.
        let ns = self.wire_segments.len();
        let ghost cleared = self@;
        for i in 0..ns
            invariant
                ns == self@.wire_segments.len(),
                map@.len() == ns,
                group_wires@.len() == n_groups,
                forall|i2: int| 0 <= i2 < ns ==> (#[trigger] map@[i2] as int) < n_groups,
                self@ == (CircuitView { wire_segments: self@.wire_segments, ..cleared }),
                same_editor_state(pre, self@),
                self@.wf(),
                forall|i2: int|
                    0 <= i2 < i ==> #[trigger] self@.wire_segments[i2].sim_wire == Some(
                        group_wires@[map@[i2] as int],
                    ),
        {
            let g = map[i];
            let w = group_wires[g];
            let mut tmp = WireSegment {
                endpoint_a: Vec2i { x: 0, y: 0 },
                midpoints: Vec::new(),
                endpoint_b: Vec2i { x: 0, y: 0 },
                sim_wire: None,
            };
            self.wire_segments.set_and_swap(i, &mut tmp);
            tmp.sim_wire = Some(w);
            self.wire_segments.set_and_swap(i, &mut tmp);
        }

        match self.resolve_anchor_wires(&mut builder, &map, &group_wires) {
            Ok(()) => {},
            Err(()) => {
                self.stop_simulation();
                return Err(StartSimError::SimulatorRejected);
            },
        }

        // Register drives and gates.
        let nc = self.components.len();
        for c in 0..nc
            invariant
                nc == self@.components.len(),
                same_editor_state(pre, self@),
                self@.wf(),
                forall|i2: int|
                    0 <= i2 < ns ==> #[trigger] self@.wire_segments[i2].sim_wire == Some(
                        group_wires@[map@[i2] as int],
                    ),
                forall|c2: int|
                    0 <= c2 < nc ==> (#[trigger] self@.components[c2]).sim_anchor_wires@.len()
                        == self@.components[c2].spec_anchors().len(),
                forall|c2: int, k2: int|
                    #![trigger self@.components[c2].sim_anchor_wires@[k2]]
                    0 <= c2 < nc && 0 <= k2 < self@.components[c2].spec_anchors().len()
                        ==> match first_seg_at(
                        self@.wire_segments,
                        self@.components[c2].spec_anchors()[k2].position,
                        0,
                    ) {
                        Some(si) => Some(self@.components[c2].sim_anchor_wires@[k2])
                            == self@.wire_segments[si].sim_wire,
                        None => true,
                    },
        {
            let comp = &self.components[c];
            let registered = match &comp.kind {
                ComponentKind::Input { value, .. } => {
                    // The port drives a private wire of its own; a
                    // two-input AND of that wire with itself buffers it
                    // onto the net, so that opposing ports are two real
                    // drivers and conflict.
                    match &comp.sim_drive_wire {
                        Some(w) => {
                            let w = *w;
                            crate::sim::builder_set_wire_drive(&mut builder, w, *value)
                                && crate::sim::builder_add_and_gate(
                                &mut builder,
                                w,
                                w,
                                comp.sim_anchor_wires[0],
                            ).is_some()
                        },
                        None => false,
                    }
                },
                ComponentKind::ClockInput { .. } => {
                    match &comp.sim_drive_wire {
                        Some(w) => {
                            let w = *w;
                            crate::sim::builder_set_wire_drive(&mut builder, w, 0)
                                && crate::sim::builder_add_and_gate(
                                &mut builder,
                                w,
                                w,
                                comp.sim_anchor_wires[0],
                            ).is_some()
                        },
                        None => false,
                    }
                },
                ComponentKind::Output { .. } => true,
                ComponentKind::Splitter { .. } => true,
                ComponentKind::AndGate { .. } => {
                    crate::sim::builder_add_and_gate(
                        &mut builder,
                        comp.sim_anchor_wires[0],
                        comp.sim_anchor_wires[1],
                        comp.sim_anchor_wires[2],
                    ).is_some()
                },
                ComponentKind::OrGate { .. } => {
                    crate::sim::builder_add_or_gate(
                        &mut builder,
                        comp.sim_anchor_wires[0],
                        comp.sim_anchor_wires[1],
                        comp.sim_anchor_wires[2],
                    ).is_some()
                },
                ComponentKind::XorGate { .. } => {
                    crate::sim::builder_add_xor_gate(
                        &mut builder,
                        comp.sim_anchor_wires[0],
                        comp.sim_anchor_wires[1],
                        comp.sim_anchor_wires[2],
                    ).is_some()
                },
                ComponentKind::NandGate { .. } => {
                    crate::sim::builder_add_nand_gate(
                        &mut builder,
                        comp.sim_anchor_wires[0],
                        comp.sim_anchor_wires[1],
                        comp.sim_anchor_wires[2],
                    ).is_some()
                },
                ComponentKind::NorGate { .. } => {
                    crate::sim::builder_add_nor_gate(
                        &mut builder,
                        comp.sim_anchor_wires[0],
                        comp.sim_anchor_wires[1],
                        comp.sim_anchor_wires[2],
                    ).is_some()
                },
                ComponentKind::XnorGate { .. } => {
                    crate::sim::builder_add_xnor_gate(
                        &mut builder,
                        comp.sim_anchor_wires[0],
                        comp.sim_anchor_wires[1],
                        comp.sim_anchor_wires[2],
                    ).is_some()
                },
            };
            if !registered {
                self.stop_simulation();
                return Err(StartSimError::SimulatorRejected);
            }
        }

        proof {
            assert(ns == pre.wire_segments.len());
            assert forall|i: int, j: int|
                0 <= i < pre.wire_segments.len() && 0 <= j < pre.wire_segments.len()
                    && #[trigger] crate::netlist::reachable(pre.wire_segments, i, j)
                implies self@.wire_segments[i].sim_wire == self@.wire_segments[j].sim_wire by {
                crate::netlist::lemma_reachable_same_group(pre.wire_segments, map@, i, j);
            }
        }
        let ghost built = self@;
        let sim = crate::sim::builder_build(builder);
        let status = self.advance_simulation(sim, false, max_steps);
        proof {
            assert(final(self)@.wire_segments == built.wire_segments);
        }
        Ok(status)
    }
}

/// In a strictly increasing list, the entry at `k` occurs nowhere else.
pub open spec fn index_list_unique(v: Seq<usize>, k: int) -> bool {
    forall|k2: int| 0 <= k2 < v.len() && k2 != k ==> v[k2] != v[k]
}

fn new_circuit_name_exec() -> (r: String)
    ensures
        r@ == new_circuit_name(),
{
    let s: String = "New Circuit".to_string();
    proof {
        reveal_strlit("New Circuit");
    }
    s
}

} // verus!
