//! The component model: placed circuit elements, their rotation and mirror
//! state, and their derived anchors (typed connection points) and bounding
//! boxes.

use vstd::prelude::*;
use crate::math::{Rectangle, Vec2i, FINE_STEPS};

verus! {

/// One of the four axis-aligned rotations, counted counterclockwise.
#[derive(Clone, Copy, Debug, PartialEq, Eq, Structural)]
pub enum Rotation {
    Deg0,
    Deg90,
    Deg180,
    Deg270,
}

impl Default for Rotation {
    fn default() -> (r: Self)
        ensures
            r == Rotation::Deg0,
    {
        Rotation::Deg0
    }
}

impl Rotation {
    /// The next rotation counterclockwise.
    pub open spec fn spec_next(self) -> Rotation {
        match self {
            Rotation::Deg0 => Rotation::Deg90,
            Rotation::Deg90 => Rotation::Deg180,
            Rotation::Deg180 => Rotation::Deg270,
            Rotation::Deg270 => Rotation::Deg0,
        }
    }

    /// The next rotation clockwise.
    pub open spec fn spec_prev(self) -> Rotation {
        match self {
            Rotation::Deg0 => Rotation::Deg270,
            Rotation::Deg90 => Rotation::Deg0,
            Rotation::Deg180 => Rotation::Deg90,
            Rotation::Deg270 => Rotation::Deg180,
        }
    }

    /// The rotation as seen in a mirror across the local X axis:
    /// 90 and 270 degrees swap, 0 and 180 stay.
    pub open spec fn spec_mirror(self) -> Rotation {
        match self {
            Rotation::Deg0 => Rotation::Deg0,
            Rotation::Deg90 => Rotation::Deg270,
            Rotation::Deg180 => Rotation::Deg180,
            Rotation::Deg270 => Rotation::Deg90,
        }
    }

    /// Walks the 4-element cycle forward.
    pub fn next(self) -> (r: Self)
        ensures
            r == self.spec_next(),
    {
        match self {
            Rotation::Deg0 => Rotation::Deg90,
            Rotation::Deg90 => Rotation::Deg180,
            Rotation::Deg180 => Rotation::Deg270,
            Rotation::Deg270 => Rotation::Deg0,
        }
    }

    /// Walks the 4-element cycle backward.
    pub fn prev(self) -> (r: Self)
        ensures
            r == self.spec_prev(),
    {
        match self {
            Rotation::Deg0 => Rotation::Deg270,
            Rotation::Deg90 => Rotation::Deg0,
            Rotation::Deg180 => Rotation::Deg90,
            Rotation::Deg270 => Rotation::Deg180,
        }
    }

    /// Reflects the rotation across the local X axis.
    pub fn mirror(self) -> (r: Self)
        ensures
            r == self.spec_mirror(),
    {
        match self {
            Rotation::Deg0 => Rotation::Deg0,
            Rotation::Deg90 => Rotation::Deg270,
            Rotation::Deg180 => Rotation::Deg180,
            Rotation::Deg270 => Rotation::Deg90,
        }
    }
}

/// Four steps around the rotation cycle return to the start, and stepping
/// backward undoes stepping forward.
pub proof fn lemma_rotation_cycle(r: Rotation)
    ensures
        r.spec_next().spec_next().spec_next().spec_next() == r,
        r.spec_next().spec_prev() == r,
        r.spec_prev().spec_next() == r,
        r.spec_prev().spec_prev().spec_prev().spec_prev() == r,
{
}

/// Mirroring a rotation twice returns it unchanged.
pub proof fn lemma_rotation_mirror_involution(r: Rotation)
    ensures
        r.spec_mirror().spec_mirror() == r,
{
}

/// The electrical role of a connection point.
#[derive(Clone, Copy, Debug, PartialEq, Eq, Structural)]
pub enum AnchorKind {
    Input,
    Output,
    BiDirectional,
    Passive,
}

/// A typed connection point on a component, together with the bit width the
/// component declares for it.
#[derive(Clone, Copy, Debug, PartialEq, Eq, Structural)]
pub struct Anchor {
    pub position: Vec2i,
    pub kind: AnchorKind,
    pub width: u8,
}

/// The type of a placed element, with its per-type data.
///
/// Simulation-graph handles are cached on [`Component`], one per anchor,
/// while a simulation is active.
pub enum ComponentKind {
    Input { name: String, value: u32, width: u8 },
    ClockInput { name: String },
    Output { name: String, width: u8 },
    Splitter { width: u8, ranges: Vec<(u8, u8)> },
    AndGate { width: u8 },
    OrGate { width: u8 },
    XorGate { width: u8 },
    NandGate { width: u8 },
    NorGate { width: u8 },
    XnorGate { width: u8 },
}

impl ComponentKind {
    /// Declared bit widths are at least one, and splitter ranges are
    /// ordered and few enough to lay out.
    pub open spec fn wf(self) -> bool {
        match self {
            ComponentKind::Input { width, .. } => 1 <= width,
            ComponentKind::ClockInput { .. } => true,
            ComponentKind::Output { width, .. } => 1 <= width,
            ComponentKind::Splitter { width, ranges } => {
                &&& 1 <= width
                &&& ranges@.len() <= 255
                &&& forall|i: int|
                    0 <= i < ranges@.len() ==> (#[trigger] ranges@[i]).0 <= ranges@[i].1
                        && ranges@[i].1 - ranges@[i].0 < 255
            },
            ComponentKind::AndGate { width } => 1 <= width,
            ComponentKind::OrGate { width } => 1 <= width,
            ComponentKind::XorGate { width } => 1 <= width,
            ComponentKind::NandGate { width } => 1 <= width,
            ComponentKind::NorGate { width } => 1 <= width,
            ComponentKind::XnorGate { width } => 1 <= width,
        }
    }

    /// A one-bit input port driving 0, with an empty name.
    pub fn new_input() -> (r: Self)
        ensures
            r matches ComponentKind::Input { name, value, width } && name@.len() == 0 && value
                == 0 && width == 1,
            r.wf(),
    {
        ComponentKind::Input { name: String::new(), value: 0, width: 1 }
    }

    /// A clock input with an empty name.
    pub fn new_clock_input() -> (r: Self)
        ensures
            r matches ComponentKind::ClockInput { name } && name@.len() == 0,
            r.wf(),
    {
        ComponentKind::ClockInput { name: String::new() }
    }

    /// A one-bit output port with an empty name.
    pub fn new_output() -> (r: Self)
        ensures
            r matches ComponentKind::Output { name, width } && name@.len() == 0 && width == 1,
            r.wf(),
    {
        ComponentKind::Output { name: String::new(), width: 1 }
    }

    /// A one-bit AND gate.
    pub fn new_and_gate() -> (r: Self)
        ensures
            r == (ComponentKind::AndGate { width: 1u8 }),
            r.wf(),
    {
        ComponentKind::AndGate { width: 1 }
    }

    /// A one-bit OR gate.
    pub fn new_or_gate() -> (r: Self)
        ensures
            r == (ComponentKind::OrGate { width: 1u8 }),
            r.wf(),
    {
        ComponentKind::OrGate { width: 1 }
    }

    /// A one-bit XOR gate.
    pub fn new_xor_gate() -> (r: Self)
        ensures
            r == (ComponentKind::XorGate { width: 1u8 }),
            r.wf(),
    {
        ComponentKind::XorGate { width: 1 }
    }

    /// A one-bit NAND gate.
    pub fn new_nand_gate() -> (r: Self)
        ensures
            r == (ComponentKind::NandGate { width: 1u8 }),
            r.wf(),
    {
        ComponentKind::NandGate { width: 1 }
    }

    /// A one-bit NOR gate.
    pub fn new_nor_gate() -> (r: Self)
        ensures
            r == (ComponentKind::NorGate { width: 1u8 }),
            r.wf(),
    {
        ComponentKind::NorGate { width: 1 }
    }

    /// A one-bit XNOR gate.
    pub fn new_xnor_gate() -> (r: Self)
        ensures
            r == (ComponentKind::XnorGate { width: 1u8 }),
            r.wf(),
    {
        ComponentKind::XnorGate { width: 1 }
    }

    /// The label drawn on the component's body.
    pub fn label(&self) -> (r: &'static str) {
        match self {
            ComponentKind::ClockInput { .. } => "CLK",
            ComponentKind::Input { .. } | ComponentKind::Output { .. }
            | ComponentKind::Splitter { .. } => "",
            ComponentKind::AndGate { .. } => "AND",
            ComponentKind::OrGate { .. } => "OR",
            ComponentKind::XorGate { .. } => "XOR",
            ComponentKind::NandGate { .. } => "NAND",
            ComponentKind::NorGate { .. } => "NOR",
            ComponentKind::XnorGate { .. } => "XNOR",
        }
    }

    /// The user-given name: the name field of ports and clock inputs, the
    /// empty sequence for every other kind.
    pub open spec fn spec_name(self) -> Seq<char> {
        match self {
            ComponentKind::Input { name, .. } => name@,
            ComponentKind::ClockInput { name } => name@,
            ComponentKind::Output { name, .. } => name@,
            _ => Seq::empty(),
        }
    }

    /// The user-given name, where the kind has one; empty otherwise.
    pub fn name(&self) -> (r: &str)
        ensures
            r@ == self.spec_name(),
    {
        match self {
            ComponentKind::ClockInput { name } => name.as_str(),
            ComponentKind::Input { name, .. } => name.as_str(),
            ComponentKind::Output { name, .. } => name.as_str(),
            _ => {
                let s = "";
                proof {
                    reveal_strlit("");
                }
                s
            },
        }
    }

    /// The untransformed connection points of this kind, with the widths
    /// they declare.
    pub open spec fn spec_anchors(self) -> Seq<Anchor> {
        match self {
            ComponentKind::Input { width, .. } => seq![
                Anchor { position: Vec2i { x: 0i32, y: 1i32 }, kind: AnchorKind::Output, width },
            ],
            ComponentKind::ClockInput { .. } => seq![
                Anchor { position: Vec2i { x: 0i32, y: 1i32 }, kind: AnchorKind::Output, width: 1u8 },
            ],
            ComponentKind::Output { width, .. } => seq![
                Anchor { position: Vec2i { x: 0i32, y: -1i32 }, kind: AnchorKind::Input, width },
            ],
            ComponentKind::Splitter { width, ranges } => seq![
                Anchor { position: Vec2i { x: 0i32, y: -1i32 }, kind: AnchorKind::Passive, width },
            ].add(
                Seq::new(
                    ranges@.len(),
                    |i: int|
                        Anchor {
                            position: Vec2i { x: (2 * i) as i32, y: 1i32 },
                            kind: AnchorKind::Passive,
                            width: (ranges@[i].1 - ranges@[i].0 + 1) as u8,
                        },
                ),
            ),
            ComponentKind::AndGate { width } => gate_anchors(width, 2),
            ComponentKind::OrGate { width } => gate_anchors(width, 2),
            ComponentKind::XorGate { width } => gate_anchors(width, 2),
            ComponentKind::NandGate { width } => gate_anchors(width, 3),
            ComponentKind::NorGate { width } => gate_anchors(width, 3),
            ComponentKind::XnorGate { width } => gate_anchors(width, 3),
        }
    }

    /// The untransformed connection points of this kind.
    #[verifier::loop_isolation(false)]
    pub fn anchors(&self) -> (v: Vec<Anchor>)
        requires
            self.wf(),
        ensures
            v@ == self.spec_anchors(),
    {
        match self {
            ComponentKind::Input { width, .. } => {
                let mut v: Vec<Anchor> = Vec::new();
                v.push(Anchor { position: Vec2i { x: 0, y: 1 }, kind: AnchorKind::Output, width: *width });
                v
            },
            ComponentKind::ClockInput { .. } => {
                let mut v: Vec<Anchor> = Vec::new();
                v.push(Anchor { position: Vec2i { x: 0, y: 1 }, kind: AnchorKind::Output, width: 1u8 });
                v
            },
            ComponentKind::Output { width, .. } => {
                let mut v: Vec<Anchor> = Vec::new();
                v.push(Anchor { position: Vec2i { x: 0, y: -1 }, kind: AnchorKind::Input, width: *width });
                v
            },
            ComponentKind::Splitter { width, ranges } => {
                let mut v: Vec<Anchor> = Vec::new();
                v.push(Anchor { position: Vec2i { x: 0, y: -1 }, kind: AnchorKind::Passive, width: *width });
                let n = ranges.len();
                for i in 0..n
                    invariant
                        n == ranges@.len() <= 255,
                        forall|j: int|
                            0 <= j < ranges@.len() ==> (#[trigger] ranges@[j]).0 <= ranges@[j].1
                                && ranges@[j].1 - ranges@[j].0 < 255,
                        v@.len() == i + 1,
                        v@ == self.spec_anchors().take(i + 1 as int),
                {
                    let (lo, hi) = ranges[i];
                    proof {
                        assert(lo == ranges@[i as int].0 && hi == ranges@[i as int].1);
                    }
                    v.push(Anchor {
                        position: Vec2i { x: (2 * i) as i32, y: 1i32 },
                        kind: AnchorKind::Passive,
                        width: hi - lo + 1,
                    });
                    proof {
                        assert(v@ =~= self.spec_anchors().take(i + 2 as int));
                    }
                }
                proof {
                    assert(v@ =~= self.spec_anchors());
                }
                v
            },
            ComponentKind::AndGate { width }
            | ComponentKind::OrGate { width }
            | ComponentKind::XorGate { width } => {
                let mut v: Vec<Anchor> = Vec::new();
                v.push(Anchor { position: Vec2i { x: -1, y: -2 }, kind: AnchorKind::Input, width: *width });
                v.push(Anchor { position: Vec2i { x: 1, y: -2 }, kind: AnchorKind::Input, width: *width });
                v.push(Anchor { position: Vec2i { x: 0, y: 2 }, kind: AnchorKind::Output, width: *width });
                proof {
                    assert(v@ =~= self.spec_anchors());
                }
                v
            },
            ComponentKind::NandGate { width }
            | ComponentKind::NorGate { width }
            | ComponentKind::XnorGate { width } => {
                let mut v: Vec<Anchor> = Vec::new();
                v.push(Anchor { position: Vec2i { x: -1, y: -2 }, kind: AnchorKind::Input, width: *width });
                v.push(Anchor { position: Vec2i { x: 1, y: -2 }, kind: AnchorKind::Input, width: *width });
                v.push(Anchor { position: Vec2i { x: 0, y: 3 }, kind: AnchorKind::Output, width: *width });
                proof {
                    assert(v@ =~= self.spec_anchors());
                }
                v
            },
        }
    }

    /// The untransformed bounding box of this kind, in fine coordinates
    /// around the local origin.
    pub open spec fn spec_local_box(self) -> Rectangle {
        match self {
            ComponentKind::Input { .. } | ComponentKind::ClockInput { .. }
            | ComponentKind::Output { .. } => Rectangle {
                top: 10i64,
                bottom: -10i64,
                left: -10i64,
                right: 10i64,
            },
            ComponentKind::Splitter { ranges, .. } => Rectangle {
                top: 10i64,
                bottom: -10i64,
                left: -10i64,
                right: if ranges@.len() == 0 {
                    10i64
                } else {
                    (2 * (ranges@.len() - 1) * 10 + 10) as i64
                },
            },
            _ => Rectangle { top: 20i64, bottom: -20i64, left: -20i64, right: 20i64 },
        }
    }

    /// The untransformed bounding box: ports span one grid unit around the
    /// origin, gates two; a splitter spans its row of connection points
    /// with one unit of margin.
    pub fn local_box(&self) -> (r: Rectangle)
        requires
            self.wf(),
        ensures
            r == self.spec_local_box(),
    {
        match self {
            ComponentKind::Input { .. } | ComponentKind::ClockInput { .. }
            | ComponentKind::Output { .. } => Rectangle { top: 10, bottom: -10, left: -10, right: 10 },
            ComponentKind::Splitter { ranges, .. } => {
                let n = ranges.len();
                let right: i64 = if n == 0 {
                    10
                } else {
                    2 * ((n - 1) as i64) * 10 + 10
                };
                Rectangle { top: 10, bottom: -10, left: -10, right }
            },
            _ => Rectangle { top: 20, bottom: -20, left: -20, right: 20 },
        }
    }
}

/// Places a local offset `p`: mirror across the local X axis first, then
/// rotate, then translate by `pos`.  Coordinates are exact; the casts are
/// value-preserving whenever `pos` is in bounds and `p` is a small offset.
pub open spec fn place_pt(pos: Vec2i, rot: Rotation, mirrored: bool, p: Vec2i) -> Vec2i {
    let mx: int = if mirrored {
        -p.x
    } else {
        p.x as int
    };
    let my: int = p.y as int;
    match rot {
        Rotation::Deg0 => Vec2i { x: (pos.x + mx) as i32, y: (pos.y + my) as i32 },
        Rotation::Deg90 => Vec2i { x: (pos.x - my) as i32, y: (pos.y + mx) as i32 },
        Rotation::Deg180 => Vec2i { x: (pos.x - mx) as i32, y: (pos.y - my) as i32 },
        Rotation::Deg270 => Vec2i { x: (pos.x + my) as i32, y: (pos.y - mx) as i32 },
    }
}

/// A placed circuit element.
///
/// `sim_anchor_wires` caches, while a simulation is active, the simulator
/// wire attached to each anchor, in anchor order; `sim_drive_wire` is the
/// private wire an input or clock port drives its net through.  Both are
/// empty otherwise and are never persisted.
pub struct Component {
    pub kind: ComponentKind,
    pub position: Vec2i,
    pub rotation: Rotation,
    pub mirrored: bool,
    pub sim_anchor_wires: Vec<gsim::WireId>,
    pub sim_drive_wire: Option<gsim::WireId>,
}

impl Component {
    /// A well-formed kind at a position within the working range.
    pub open spec fn wf(self) -> bool {
        self.kind.wf() && self.position.in_bounds()
    }

    /// A fresh component of the given kind at the origin.
    pub fn new(kind: ComponentKind) -> (r: Self)
        ensures
            r.kind == kind,
            r.position == (Vec2i { x: 0i32, y: 0i32 }),
            r.rotation == Rotation::Deg0,
            r.mirrored == false,
            r.sim_anchor_wires@.len() == 0,
            r.sim_drive_wire is None,
            kind.wf() ==> r.wf(),
    {
        Component {
            kind,
            position: Vec2i { x: 0, y: 0 },
            rotation: Rotation::Deg0,
            mirrored: false,
            sim_anchor_wires: Vec::new(),
            sim_drive_wire: None,
        }
    }

    /// The component's grid position.
    pub fn position(&self) -> (r: Vec2i)
        ensures
            r == self.position,
    {
        self.position
    }

    /// Moves the component; everything else is unchanged.
    pub fn set_position(&mut self, new_position: Vec2i)
        ensures
            *final(self) == (Component { position: new_position, ..*old(self) }),
    {
        self.position = new_position;
    }

    /// Clears the cached simulator handles; the next simulation start
    /// rebuilds them.
    pub fn reset_sim_ids(&mut self)
        ensures
            *final(self) == (Component {
                sim_anchor_wires: final(self).sim_anchor_wires,
                sim_drive_wire: None,
                ..*old(self)
            }),
            final(self).sim_anchor_wires@.len() == 0,
    {
        self.sim_anchor_wires = Vec::new();
        self.sim_drive_wire = None;
    }

    /// The component's connection points after mirror, rotation and
    /// translation, in the fixed per-kind order.
    pub open spec fn spec_anchors(self) -> Seq<Anchor> {
        self.kind.spec_anchors().map(
            |i: int, a: Anchor|
                Anchor {
                    position: place_pt(self.position, self.rotation, self.mirrored, a.position),
                    kind: a.kind,
                    width: a.width,
                },
        )
    }

    /// Computes the transformed connection points.
    #[verifier::loop_isolation(false)]
    pub fn anchors(&self) -> (v: Vec<Anchor>)
        requires
            self.wf(),
        ensures
            v@ == self.spec_anchors(),
    {
        proof {
            lemma_kind_anchor_bounds(self.kind);
        }
        let locals = self.kind.anchors();
        let mut v: Vec<Anchor> = Vec::new();
        let n = locals.len();
        for i in 0..n
            invariant
                n == locals@.len(),
                v@.len() == i,
                forall|j: int| 0 <= j < i ==> v@[j] == self.spec_anchors()[j],
        {
            let a = locals[i];
            let mx: i64 = if self.mirrored {
                -(a.position.x as i64)
            } else {
                a.position.x as i64
            };
            let my: i64 = a.position.y as i64;
            let px: i64 = self.position.x as i64;
            let py: i64 = self.position.y as i64;
            let (x, y): (i64, i64) = match self.rotation {
                Rotation::Deg0 => (px + mx, py + my),
                Rotation::Deg90 => (px - my, py + mx),
                Rotation::Deg180 => (px - mx, py - my),
                Rotation::Deg270 => (px + my, py - mx),
            };
            v.push(Anchor { position: Vec2i { x: x as i32, y: y as i32 }, kind: a.kind, width: a.width });
        }
        proof {
            assert(v@ =~= self.spec_anchors());
        }
        v
    }

    /// The component's bounding box in fine coordinates: the local box
    /// mirrored, rotated and translated.
    pub open spec fn spec_bounding_box(self) -> Rectangle {
        let b = self.kind.spec_local_box();
        let m = if self.mirrored {
            Rectangle { top: b.top, bottom: b.bottom, left: (-b.right) as i64, right: (-b.left) as i64 }
        } else {
            b
        };
        let r = match self.rotation {
            Rotation::Deg0 => m,
            Rotation::Deg90 => Rectangle {
                top: m.right,
                bottom: m.left,
                left: (-m.top) as i64,
                right: (-m.bottom) as i64,
            },
            Rotation::Deg180 => Rectangle {
                top: (-m.bottom) as i64,
                bottom: (-m.top) as i64,
                left: (-m.right) as i64,
                right: (-m.left) as i64,
            },
            Rotation::Deg270 => Rectangle {
                top: (-m.left) as i64,
                bottom: (-m.right) as i64,
                left: m.bottom,
                right: m.top,
            },
        };
        Rectangle {
            top: (r.top + self.position.y * FINE_STEPS) as i64,
            bottom: (r.bottom + self.position.y * FINE_STEPS) as i64,
            left: (r.left + self.position.x * FINE_STEPS) as i64,
            right: (r.right + self.position.x * FINE_STEPS) as i64,
        }
    }

    /// Computes the transformed bounding box.
    pub fn bounding_box(&self) -> (r: Rectangle)
        requires
            self.wf(),
        ensures
            r == self.spec_bounding_box(),
    {
        let b = self.kind.local_box();
        let m = if self.mirrored {
            Rectangle { top: b.top, bottom: b.bottom, left: -b.right, right: -b.left }
        } else {
            b
        };
        let r = match self.rotation {
            Rotation::Deg0 => m,
            Rotation::Deg90 => Rectangle { top: m.right, bottom: m.left, left: -m.top, right: -m.bottom },
            Rotation::Deg180 => Rectangle {
                top: -m.bottom,
                bottom: -m.top,
                left: -m.right,
                right: -m.left,
            },
            Rotation::Deg270 => Rectangle { top: -m.left, bottom: -m.right, left: m.bottom, right: m.top },
        };
        let ox: i64 = (self.position.x as i64) * 10;
        let oy: i64 = (self.position.y as i64) * 10;
        Rectangle { top: r.top + oy, bottom: r.bottom + oy, left: r.left + ox, right: r.right + ox }
    }
}

/// Local anchor offsets are small: at most 510 fine-steps-free grid units
/// on the X axis (a full splitter row) and 3 on the Y axis.
pub proof fn lemma_kind_anchor_bounds(kind: ComponentKind)
    requires
        kind.wf(),
    ensures
        forall|i: int|
            0 <= i < kind.spec_anchors().len() ==> {
                let p = (#[trigger] kind.spec_anchors()[i]).position;
                -3 <= p.x <= 510 && -3 <= p.y <= 3
            },
{
}

/// The derived anchors depend only on the kind and placement, not on
/// cached simulation handles.
pub proof fn lemma_anchors_ignore_wires(x: Component, y: Component)
    requires
        y.kind == x.kind,
        y.position == x.position,
        y.rotation == x.rotation,
        y.mirrored == x.mirrored,
    ensures
        y.spec_anchors() == x.spec_anchors(),
{
    assert forall|k: int|
        0 <= k < x.spec_anchors().len() implies y.spec_anchors()[k] == x.spec_anchors()[k] by {
    }
    assert(y.spec_anchors() =~= x.spec_anchors());
}

/// The component as the counterclockwise-rotate operation leaves it:
/// only the rotation steps forward.
pub open spec fn spec_rotated_ccw(c: Component) -> Component {
    Component { rotation: c.rotation.spec_next(), ..c }
}

/// The component as the clockwise-rotate operation leaves it: only the
/// rotation steps backward.
pub open spec fn spec_rotated_cw(c: Component) -> Component {
    Component { rotation: c.rotation.spec_prev(), ..c }
}

/// The component as the mirror operation leaves it: the mirror flag flips
/// and the rotation is reflected.
pub open spec fn spec_mirrored(c: Component) -> Component {
    Component { mirrored: !c.mirrored, rotation: c.rotation.spec_mirror(), ..c }
}

/// Rotating a component four times in either direction restores it
/// exactly: its rotation, and with it every anchor position and the
/// bounding box.
pub proof fn lemma_component_rotate_four(c: Component)
    ensures
        spec_rotated_ccw(spec_rotated_ccw(spec_rotated_ccw(spec_rotated_ccw(c)))) == c,
        spec_rotated_cw(spec_rotated_cw(spec_rotated_cw(spec_rotated_cw(c)))) == c,
        spec_rotated_ccw(spec_rotated_ccw(spec_rotated_ccw(spec_rotated_ccw(c)))).spec_anchors()
            == c.spec_anchors(),
        spec_rotated_ccw(spec_rotated_ccw(spec_rotated_ccw(spec_rotated_ccw(c)))).spec_bounding_box()
            == c.spec_bounding_box(),
{
    lemma_rotation_cycle(c.rotation);
}

/// Mirroring a component twice restores it exactly, anchors and bounding
/// box included.
pub proof fn lemma_component_mirror_twice(c: Component)
    ensures
        spec_mirrored(spec_mirrored(c)) == c,
        spec_mirrored(spec_mirrored(c)).spec_anchors() == c.spec_anchors(),
        spec_mirrored(spec_mirrored(c)).spec_bounding_box() == c.spec_bounding_box(),
{
    lemma_rotation_mirror_involution(c.rotation);
}

/// A well-formed component's anchors stay within the working range plus
/// the largest local offset.
pub proof fn lemma_anchor_positions_bounded(c: Component)
    requires
        c.wf(),
    ensures
        forall|k: int|
            0 <= k < c.spec_anchors().len() ==> {
                let p = (#[trigger] c.spec_anchors()[k]).position;
                -100_000_510 <= p.x <= 100_000_510 && -100_000_510 <= p.y <= 100_000_510
            },
{
    lemma_kind_anchor_bounds(c.kind);
}

/// Anchors of a two-input gate: inputs at the top corners, the output
/// below at `out_y`.
pub open spec fn gate_anchors(width: u8, out_y: int) -> Seq<Anchor> {
    seq![
        Anchor { position: Vec2i { x: -1i32, y: -2i32 }, kind: AnchorKind::Input, width },
        Anchor { position: Vec2i { x: 1i32, y: -2i32 }, kind: AnchorKind::Input, width },
        Anchor { position: Vec2i { x: 0i32, y: out_y as i32 }, kind: AnchorKind::Output, width },
    ]
}

} // verus!
