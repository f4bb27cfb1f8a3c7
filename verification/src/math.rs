//! Geometry primitives: integer grid vectors, fine (tenth-of-a-unit)
//! vectors, axis-aligned rectangles and triangle containment.

use vstd::prelude::*;

verus! {

/// Fine steps per grid unit.  One fine step is one logical pixel.
pub const FINE_STEPS: i64 = 10;

/// Largest coordinate (in grid units) the editor works with.
pub const COORD_LIMIT: i32 = 100_000_000;

/// `COORD_LIMIT` in fine steps: the bound for stored geometry and for
/// pointer positions.
pub const GRID_FINE_LIMIT: i64 = 1_000_000_000;

/// Bound for any fine point the library computes with; slightly more than
/// `GRID_FINE_LIMIT` to cover connection points derived from geometry near
/// the edge of the working range.
pub const FINE_LIMIT: i64 = 1_100_000_000;

/// A 2D vector in whole grid units.
#[derive(Clone, Copy, Debug, PartialEq, Eq, Structural)]
pub struct Vec2i {
    pub x: i32,
    pub y: i32,
}

/// A 2D vector in fine coordinates: tenths of a grid unit.
///
/// This is the precision pointer positions and drag deltas are measured in;
/// the name parallels [`Vec2i`], which holds whole grid units.
#[derive(Clone, Copy, Debug, PartialEq, Eq, Structural)]
pub struct Vec2f {
    pub x: i64,
    pub y: i64,
}

impl Vec2i {
    /// Both coordinates within the editor's working range.
    pub open spec fn in_bounds(self) -> bool {
        -COORD_LIMIT <= self.x <= COORD_LIMIT && -COORD_LIMIT <= self.y <= COORD_LIMIT
    }

    #[inline]
    pub fn new(x: i32, y: i32) -> (r: Self)
        ensures
            r.x == x,
            r.y == y,
    {
        Vec2i { x, y }
    }

    /// The same point in fine coordinates.
    #[inline]
    pub fn to_vec2f(self) -> (r: Vec2f)
        ensures
            r.x == self.x * FINE_STEPS,
            r.y == self.y * FINE_STEPS,
    {
        Vec2f { x: (self.x as i64) * FINE_STEPS, y: (self.y as i64) * FINE_STEPS }
    }
}

/// `q` is the whole number of grid units in `x` fine steps, rounded down.
pub open spec fn is_floor_unit(x: int, q: int) -> bool {
    FINE_STEPS * q <= x < FINE_STEPS * (q + 1)
}

/// `q` is the whole number of grid units in `x` fine steps, rounded up.
pub open spec fn is_ceil_unit(x: int, q: int) -> bool {
    FINE_STEPS * (q - 1) < x <= FINE_STEPS * q
}

/// `q` is `x` fine steps in grid units rounded to nearest, halves away
/// from zero.
pub open spec fn is_round_unit(x: int, q: int) -> bool {
    if x >= 0 {
        q >= 0 && FINE_STEPS * q <= x + FINE_STEPS / 2 < FINE_STEPS * (q + 1)
    } else {
        q <= 0 && FINE_STEPS * q >= x - FINE_STEPS / 2 > FINE_STEPS * (q - 1)
    }
}

/// `q` is `x` fine steps in grid units with the fraction discarded
/// (truncation toward zero).
pub open spec fn is_trunc_unit(x: int, q: int) -> bool {
    if x >= 0 {
        q >= 0 && is_floor_unit(x, q)
    } else {
        q <= 0 && is_ceil_unit(x, q)
    }
}

/// Fine coordinates safe for the arithmetic below.
pub open spec fn fine_arith_ok(x: int) -> bool {
    -0x4000_0000_0000_0000 <= x <= 0x4000_0000_0000_0000
}

pub(crate) fn floor_unit(x: i64) -> (q: i64)
    requires
        fine_arith_ok(x as int),
    ensures
        is_floor_unit(x as int, q as int),
{
    if x >= 0 {
        x / 10
    } else {
        let p = (-x) + 9;
        -(p / 10)
    }
}

pub(crate) fn ceil_unit(x: i64) -> (q: i64)
    requires
        fine_arith_ok(x as int),
    ensures
        is_ceil_unit(x as int, q as int),
{
    if x >= 0 {
        (x + 9) / 10
    } else {
        -((-x) / 10)
    }
}

pub(crate) fn round_unit(x: i64) -> (q: i64)
    requires
        fine_arith_ok(x as int),
    ensures
        is_round_unit(x as int, q as int),
{
    if x >= 0 {
        (x + 5) / 10
    } else {
        -(((-x) + 5) / 10)
    }
}

pub(crate) fn trunc_unit(x: i64) -> (q: i64)
    requires
        fine_arith_ok(x as int),
    ensures
        is_trunc_unit(x as int, q as int),
{
    if x >= 0 {
        x / 10
    } else {
        -((-x) / 10)
    }
}

impl Vec2f {
    /// Both coordinates within the editor's working range.
    pub open spec fn in_bounds(self) -> bool {
        -FINE_LIMIT <= self.x <= FINE_LIMIT && -FINE_LIMIT <= self.y <= FINE_LIMIT
    }

    /// Both coordinates safe for fine arithmetic.
    pub open spec fn arith_ok(self) -> bool {
        fine_arith_ok(self.x as int) && fine_arith_ok(self.y as int)
    }

    #[inline]
    pub fn new(x: i64, y: i64) -> (r: Self)
        ensures
            r.x == x,
            r.y == y,
    {
        Vec2f { x, y }
    }

    /// Each coordinate snapped down to the next whole grid unit.
    pub fn floor(self) -> (r: Self)
        requires
            self.arith_ok(),
        ensures
            is_floor_unit(self.x as int, r.x as int / FINE_STEPS as int),
            is_floor_unit(self.y as int, r.y as int / FINE_STEPS as int),
            r.x % FINE_STEPS == 0,
            r.y % FINE_STEPS == 0,
            r.x <= self.x < r.x + FINE_STEPS,
            r.y <= self.y < r.y + FINE_STEPS,
    {
        let qx = floor_unit(self.x);
        let qy = floor_unit(self.y);
        Vec2f { x: qx * 10, y: qy * 10 }
    }

    /// Each coordinate snapped up to the next whole grid unit.
    pub fn ceil(self) -> (r: Self)
        requires
            self.arith_ok(),
        ensures
            r.x % FINE_STEPS == 0,
            r.y % FINE_STEPS == 0,
            r.x - FINE_STEPS < self.x <= r.x,
            r.y - FINE_STEPS < self.y <= r.y,
    {
        let qx = ceil_unit(self.x);
        let qy = ceil_unit(self.y);
        Vec2f { x: qx * 10, y: qy * 10 }
    }

    /// Each coordinate snapped to the nearest whole grid unit, halves away
    /// from zero.
    pub fn round(self) -> (r: Self)
        requires
            self.arith_ok(),
        ensures
            is_round_unit(self.x as int, r.x as int / FINE_STEPS as int),
            is_round_unit(self.y as int, r.y as int / FINE_STEPS as int),
            r.x % FINE_STEPS == 0,
            r.y % FINE_STEPS == 0,
    {
        let qx = round_unit(self.x);
        let qy = round_unit(self.y);
        Vec2f { x: qx * 10, y: qy * 10 }
    }

    /// The grid-unit vector obtained by discarding each coordinate's
    /// fraction (truncation toward zero, as an `as` cast would).
    pub fn to_vec2i(self) -> (r: Vec2i)
        requires
            self.in_bounds(),
        ensures
            is_trunc_unit(self.x as int, r.x as int),
            is_trunc_unit(self.y as int, r.y as int),
            (-GRID_FINE_LIMIT <= self.x <= GRID_FINE_LIMIT && -GRID_FINE_LIMIT <= self.y
                <= GRID_FINE_LIMIT) ==> r.in_bounds(),
    {
        let qx = trunc_unit(self.x);
        let qy = trunc_unit(self.y);
        Vec2i { x: qx as i32, y: qy as i32 }
    }
}

/// Cross product of `(ax, ay)` and `(bx, by)`.
pub open spec fn cross2(ax: int, ay: int, bx: int, by: int) -> int {
    ax * by - ay * bx
}

/// Squared distance between two fine points.
pub open spec fn dist_sq(a: Vec2f, b: Vec2f) -> int {
    (a.x - b.x) * (a.x - b.x) + (a.y - b.y) * (a.y - b.y)
}

/// Bounds the product of two bounded factors.
pub proof fn lemma_mul_bound(x: int, y: int, b: int)
    requires
        -b <= x <= b,
        -b <= y <= b,
    ensures
        -(b * b) <= x * y <= b * b,
{
    assert(-(b * b) <= x * y <= b * b) by (nonlinear_arith)
        requires
            -b <= x <= b,
            -b <= y <= b,
    ;
}

/// Bounds the product of two factors with separate bounds.
pub proof fn lemma_mul_bound2(x: int, y: int, bx: int, by: int)
    requires
        -bx <= x <= bx,
        -by <= y <= by,
    ensures
        -(bx * by) <= x * y <= bx * by,
{
    assert(-(bx * by) <= x * y <= bx * by) by (nonlinear_arith)
        requires
            -bx <= x <= bx,
            -by <= y <= by,
    ;
}

/// Whether `a` lies within `radius` fine steps of `b` (Euclidean).
pub fn within_radius(a: Vec2f, b: Vec2f, radius: i64) -> (r: bool)
    requires
        a.in_bounds(),
        b.in_bounds(),
        0 <= radius <= FINE_LIMIT,
    ensures
        r == (dist_sq(a, b) <= radius * radius),
{
    let dx: i128 = (a.x as i128) - (b.x as i128);
    let dy: i128 = (a.y as i128) - (b.y as i128);
    proof {
        lemma_mul_bound(radius as int, radius as int, FINE_LIMIT as int);
        lemma_mul_bound(dx as int, dx as int, 2 * FINE_LIMIT as int);
        lemma_mul_bound(dy as int, dy as int, 2 * FINE_LIMIT as int);
    }
    let rr: i128 = (radius as i128) * (radius as i128);
    dx * dx + dy * dy <= rr
}

/// An axis-aligned rectangle in fine coordinates.
///
/// `bottom <= top` and `left <= right` hold for every rectangle the library
/// builds, but the containment test does not depend on it.
#[derive(Clone, Copy, Debug, PartialEq, Eq, Structural)]
pub struct Rectangle {
    pub top: i64,
    pub bottom: i64,
    pub left: i64,
    pub right: i64,
}

impl Rectangle {
    /// Inclusive containment of a fine point.
    pub open spec fn spec_contains(self, p: Vec2f) -> bool {
        self.left <= p.x <= self.right && self.bottom <= p.y <= self.top
    }

    /// Inclusive axis-aligned containment test.
    pub fn contains(&self, p: Vec2f) -> (r: bool)
        ensures
            r == self.spec_contains(p),
    {
        (p.x >= self.left) && (p.x <= self.right) && (p.y >= self.bottom) && (p.y <= self.top)
    }

    /// The rectangle's middle point; exact when both side sums are even.
    pub fn center(&self) -> (r: Vec2f)
        requires
            fine_arith_ok(self.left + self.right),
            fine_arith_ok(self.bottom + self.top),
            (self.left + self.right) % 2 == 0,
            (self.bottom + self.top) % 2 == 0,
        ensures
            r.x * 2 == self.left + self.right,
            r.y * 2 == self.bottom + self.top,
    {
        let sx = self.left + self.right;
        let sy = self.bottom + self.top;
        let cx = if sx >= 0 { sx / 2 } else { -((-sx) / 2) };
        let cy = if sy >= 0 { sy / 2 } else { -((-sy) / 2) };
        Vec2f { x: cx, y: cy }
    }

    /// Horizontal extent.
    pub fn width(&self) -> (r: i64)
        requires
            fine_arith_ok(self.right - self.left),
        ensures
            r == self.right - self.left,
    {
        self.right - self.left
    }

    /// Vertical extent.
    pub fn height(&self) -> (r: i64)
        requires
            fine_arith_ok(self.top - self.bottom),
        ensures
            r == self.top - self.bottom,
    {
        self.top - self.bottom
    }
}

/// A triangle with fine-coordinate corners.
pub struct Triangle {
    pub a: Vec2f,
    pub b: Vec2f,
    pub c: Vec2f,
}

/// Sign term of the edge from `c` to `a` against point `p`.
pub open spec fn tri_s(t: Triangle, p: Vec2f) -> int {
    cross2(t.a.x - t.c.x, t.a.y - t.c.y, p.x - t.c.x, p.y - t.c.y)
}

/// Sign term of the edge from `a` to `b` against point `p`.
pub open spec fn tri_t(t: Triangle, p: Vec2f) -> int {
    cross2(t.b.x - t.a.x, t.b.y - t.a.y, p.x - t.a.x, p.y - t.a.y)
}

/// Sign term of the edge from `b` to `c` against point `p`.
pub open spec fn tri_d(t: Triangle, p: Vec2f) -> int {
    cross2(t.c.x - t.b.x, t.c.y - t.b.y, p.x - t.c.x, p.y - t.c.y)
}

/// Point-in-triangle by signs of cross products; a zero cross product
/// (point exactly on an edge's line) counts as inside.
pub open spec fn tri_contains(t: Triangle, p: Vec2f) -> bool {
    let s = tri_s(t, p);
    let tt = tri_t(t, p);
    let d = tri_d(t, p);
    if ((s < 0) != (tt < 0)) && s != 0 && tt != 0 {
        false
    } else {
        d == 0 || ((d < 0) == (s + tt <= 0))
    }
}

impl Triangle {
    /// Sign-of-cross-product containment test, boundary inclusive.
    pub fn contains(&self, p: Vec2f) -> (r: bool)
        requires
            self.a.in_bounds(),
            self.b.in_bounds(),
            self.c.in_bounds(),
            p.in_bounds(),
        ensures
            r == tri_contains(*self, p),
    {
        let cax: i128 = (self.a.x as i128) - (self.c.x as i128);
        let cay: i128 = (self.a.y as i128) - (self.c.y as i128);
        let abx: i128 = (self.b.x as i128) - (self.a.x as i128);
        let aby: i128 = (self.b.y as i128) - (self.a.y as i128);
        let cpx: i128 = (p.x as i128) - (self.c.x as i128);
        let cpy: i128 = (p.y as i128) - (self.c.y as i128);
        let apx: i128 = (p.x as i128) - (self.a.x as i128);
        let apy: i128 = (p.y as i128) - (self.a.y as i128);

        proof {
            let b: int = 2 * FINE_LIMIT as int;
            lemma_mul_bound(cax as int, cpy as int, b);
            lemma_mul_bound(cay as int, cpx as int, b);
            lemma_mul_bound(abx as int, apy as int, b);
            lemma_mul_bound(aby as int, apx as int, b);
        }
        let s: i128 = cax * cpy - cay * cpx;
        let t: i128 = abx * apy - aby * apx;

        if ((s < 0) != (t < 0)) && s != 0 && t != 0 {
            return false;
        }

        let bcx: i128 = (self.c.x as i128) - (self.b.x as i128);
        let bcy: i128 = (self.c.y as i128) - (self.b.y as i128);
        proof {
            let b: int = 2 * FINE_LIMIT as int;
            lemma_mul_bound(bcx as int, cpy as int, b);
            lemma_mul_bound(bcy as int, cpx as int, b);
        }
        let d: i128 = bcx * cpy - bcy * cpx;

        (d == 0) || ((d < 0) == (s + t <= 0))
    }
}

} // verus!
