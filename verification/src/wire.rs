//! Wire segments: a poly-line with two drawn endpoints, an automatically
//! routed mid-point, a stroke containment test and a split operation.

use vstd::prelude::*;
use crate::math::{Rectangle, Vec2f, Vec2i, FINE_LIMIT, FINE_STEPS};

verus! {

/// Absolute value.
pub open spec fn abs_i(x: int) -> int {
    if x >= 0 {
        x
    } else {
        -x
    }
}

/// The mid-points the router inserts between `a` and `b`: none for a
/// straight or 45-degree run, otherwise exactly one, adjacent to `b` on
/// the axis with the larger travel, so that the remaining leg is a
/// 45-degree diagonal.
pub open spec fn spec_midpoints(a: Vec2i, b: Vec2i) -> Seq<Vec2i> {
    let dx = abs_i(b.x - a.x);
    let dy = abs_i(b.y - a.y);
    if dx == 0 || dy == 0 || dx == dy {
        Seq::empty()
    } else if dx > dy {
        let off: int = if a.x > b.x {
            dx - dy
        } else {
            dy - dx
        };
        seq![Vec2i { x: (b.x + off) as i32, y: b.y }]
    } else {
        let off: int = if a.y > b.y {
            dy - dx
        } else {
            dx - dy
        };
        seq![Vec2i { x: b.x, y: (b.y + off) as i32 }]
    }
}

/// One drawn wire.
///
/// `sim_wire` caches the simulator wire of the segment's group while a
/// simulation is active; it is `None` otherwise and is never persisted.
pub struct WireSegment {
    pub endpoint_a: Vec2i,
    pub midpoints: Vec<Vec2i>,
    pub endpoint_b: Vec2i,
    pub sim_wire: Option<gsim::WireId>,
}

impl WireSegment {
    /// All stored points are within the working range.
    pub open spec fn wf(self) -> bool {
        &&& self.endpoint_a.in_bounds()
        &&& self.endpoint_b.in_bounds()
        &&& forall|i: int| 0 <= i < self.midpoints@.len() ==> (#[trigger] self.midpoints@[i]).in_bounds()
    }

    /// The stored mid-points follow the routing rule for the endpoints.
    pub open spec fn routed(self) -> bool {
        self.midpoints@ == spec_midpoints(self.endpoint_a, self.endpoint_b)
    }

    /// The full point sequence `endpoint_a, mid-points…, endpoint_b`.
    pub open spec fn spec_points(self) -> Seq<Vec2i> {
        seq![self.endpoint_a] + self.midpoints@ + seq![self.endpoint_b]
    }

    /// A fresh segment between the given endpoints, routed, with no
    /// simulator wire attached.
    pub fn new(endpoint_a: Vec2i, endpoint_b: Vec2i) -> (r: WireSegment)
        requires
            endpoint_a.in_bounds(),
            endpoint_b.in_bounds(),
        ensures
            r.endpoint_a == endpoint_a,
            r.endpoint_b == endpoint_b,
            r.routed(),
            r.sim_wire is None,
            r.wf(),
    {
        let mut seg = WireSegment {
            endpoint_a,
            midpoints: Vec::new(),
            endpoint_b,
            sim_wire: None,
        };
        seg.update_midpoints();
        seg
    }

    /// Recomputes the mid-points from the endpoints; nothing else changes.
    pub fn update_midpoints(&mut self)
        requires
            old(self).endpoint_a.in_bounds(),
            old(self).endpoint_b.in_bounds(),
        ensures
            final(self).endpoint_a == old(self).endpoint_a,
            final(self).endpoint_b == old(self).endpoint_b,
            final(self).sim_wire == old(self).sim_wire,
            final(self).routed(),
            final(self).wf(),
    {
        let a = self.endpoint_a;
        let b = self.endpoint_b;
        let dx64: i64 = (b.x as i64) - (a.x as i64);
        let dy64: i64 = (b.y as i64) - (a.y as i64);
        let dx: i64 = if dx64 >= 0 {
            dx64
        } else {
            -dx64
        };
        let dy: i64 = if dy64 >= 0 {
            dy64
        } else {
            -dy64
        };

        let mut mids: Vec<Vec2i> = Vec::new();
        if dx == 0 || dy == 0 || dx == dy {
            // Straight or diagonal run: no mid-point.
        } else if dx > dy {
            let off: i64 = if a.x > b.x {
                dx - dy
            } else {
                dy - dx
            };
            mids.push(Vec2i { x: ((b.x as i64) + off) as i32, y: b.y });
        } else {
            let off: i64 = if a.y > b.y {
                dy - dx
            } else {
                dx - dy
            };
            mids.push(Vec2i { x: b.x, y: ((b.y as i64) + off) as i32 });
        }
        self.midpoints = mids;
        proof {
            assert(self.midpoints@ =~= spec_midpoints(self.endpoint_a, self.endpoint_b));
        }
    }
}

/// Least X coordinate in a non-empty point sequence.
pub open spec fn pts_min_x(s: Seq<Vec2i>) -> int
    decreases s.len(),
{
    if s.len() <= 1 {
        s[0].x as int
    } else if s.last().x < pts_min_x(s.drop_last()) {
        s.last().x as int
    } else {
        pts_min_x(s.drop_last())
    }
}

/// Greatest X coordinate in a non-empty point sequence.
pub open spec fn pts_max_x(s: Seq<Vec2i>) -> int
    decreases s.len(),
{
    if s.len() <= 1 {
        s[0].x as int
    } else if s.last().x > pts_max_x(s.drop_last()) {
        s.last().x as int
    } else {
        pts_max_x(s.drop_last())
    }
}

/// Least Y coordinate in a non-empty point sequence.
pub open spec fn pts_min_y(s: Seq<Vec2i>) -> int
    decreases s.len(),
{
    if s.len() <= 1 {
        s[0].y as int
    } else if s.last().y < pts_min_y(s.drop_last()) {
        s.last().y as int
    } else {
        pts_min_y(s.drop_last())
    }
}

/// Greatest Y coordinate in a non-empty point sequence.
pub open spec fn pts_max_y(s: Seq<Vec2i>) -> int
    decreases s.len(),
{
    if s.len() <= 1 {
        s[0].y as int
    } else if s.last().y > pts_max_y(s.drop_last()) {
        s.last().y as int
    } else {
        pts_max_y(s.drop_last())
    }
}

/// Whether the fine point `p` lies in the stroke quad of the leg from `a`
/// to `b`: within the leg's extent along its direction and within one fine
/// step (half the stroke width) of its line.  A degenerate leg contains
/// nothing.
pub open spec fn leg_contains(a: Vec2i, b: Vec2i, p: Vec2f) -> bool {
    if a == b {
        false
    } else {
        let dx = FINE_STEPS * (b.x - a.x);
        let dy = FINE_STEPS * (b.y - a.y);
        let px = p.x - FINE_STEPS * a.x;
        let py = p.y - FINE_STEPS * a.y;
        let along = dx * px + dy * py;
        let len2 = dx * dx + dy * dy;
        let across = dx * py - dy * px;
        0 <= along <= len2 && across * across <= len2
    }
}

/// The first leg of the poly-line `pts` whose stroke quad contains `p`,
/// searching from leg `i` on.
pub open spec fn first_leg_hit(pts: Seq<Vec2i>, p: Vec2f, i: int) -> Option<int>
    decreases pts.len() - i,
{
    if i < 0 || i + 1 >= pts.len() {
        None
    } else if leg_contains(pts[i], pts[i + 1], p) {
        Some(i)
    } else {
        first_leg_hit(pts, p, i + 1)
    }
}

impl WireSegment {
    /// The segment's bounding box, expanded by one fine step (half the
    /// stroke width) in every direction.
    pub open spec fn spec_bb(self) -> Rectangle {
        let pts = self.spec_points();
        Rectangle {
            top: (pts_max_y(pts) * FINE_STEPS + 1) as i64,
            bottom: (pts_min_y(pts) * FINE_STEPS - 1) as i64,
            left: (pts_min_x(pts) * FINE_STEPS - 1) as i64,
            right: (pts_max_x(pts) * FINE_STEPS + 1) as i64,
        }
    }

    /// The sub-segment of this wire that the fine point `p` touches: an
    /// inclusive bounding-box reject expanded by half the stroke width,
    /// then the first leg whose stroke quad contains `p`.
    pub open spec fn spec_contains(self, p: Vec2f) -> Option<int> {
        if !self.spec_bb().spec_contains(p) {
            None
        } else {
            first_leg_hit(self.spec_points(), p, 0)
        }
    }

    /// Stroke containment test; returns the index of the first sub-segment
    /// hit, for splitting.
    #[verifier::loop_isolation(false)]
    pub fn contains(&self, p: Vec2f) -> (r: Option<usize>)
        requires
            self.wf(),
            p.in_bounds(),
        ensures
            r matches Some(i) ==> self.spec_contains(p) == Some(i as int),
            r is None ==> self.spec_contains(p) is None,
    {
        let ghost pts = self.spec_points();

        // Gather the points once.
        let mut v: Vec<Vec2i> = Vec::new();
        v.push(self.endpoint_a);
        let n_mid = self.midpoints.len();
        for i in 0..n_mid
            invariant
                v@.len() == i + 1,
                v@ == pts.take(i + 1 as int),
        {
            v.push(self.midpoints[i]);
            proof {
                assert(v@ =~= pts.take(i + 2 as int));
            }
        }
        v.push(self.endpoint_b);
        proof {
            assert(v@ =~= pts);
        }

        // Bounding box, expanded by one fine step.
        let mut min_x: i32 = v[0].x;
        let mut max_x: i32 = v[0].x;
        let mut min_y: i32 = v[0].y;
        let mut max_y: i32 = v[0].y;
        let n = v.len();
        for i in 1..n
            invariant
                min_x as int == pts_min_x(pts.take(i as int)),
                max_x as int == pts_max_x(pts.take(i as int)),
                min_y as int == pts_min_y(pts.take(i as int)),
                max_y as int == pts_max_y(pts.take(i as int)),
        {
            proof {
                assert(pts.take(i + 1 as int).drop_last() =~= pts.take(i as int));
            }
            let q = v[i];
            if q.x < min_x {
                min_x = q.x;
            }
            if q.x > max_x {
                max_x = q.x;
            }
            if q.y < min_y {
                min_y = q.y;
            }
            if q.y > max_y {
                max_y = q.y;
            }
        }
        proof {
            assert(pts.take(n as int) =~= pts);
        }
        let bb = Rectangle {
            top: (max_y as i64) * 10 + 1,
            bottom: (min_y as i64) * 10 - 1,
            left: (min_x as i64) * 10 - 1,
            right: (max_x as i64) * 10 + 1,
        };
        if !bb.contains(p) {
            return None;
        }

        // Stroke quads, leg by leg.
        for i in 0..n - 1
            invariant
                first_leg_hit(pts, p, 0) == first_leg_hit(pts, p, i as int),
        {
            let a = v[i];
            let b = v[i + 1];
            if leg_hit(a, b, p) {
                return Some(i);
            }
            proof {
                assert(first_leg_hit(pts, p, i as int) == first_leg_hit(pts, p, i + 1 as int));
            }
        }
        None
    }
}

/// Executable form of [`leg_contains`].
fn leg_hit(a: Vec2i, b: Vec2i, p: Vec2f) -> (r: bool)
    requires
        a.in_bounds(),
        b.in_bounds(),
        p.in_bounds(),
    ensures
        r == leg_contains(a, b, p),
{
    if a.x == b.x && a.y == b.y {
        return false;
    }
    let dx: i128 = 10 * ((b.x as i128) - (a.x as i128));
    let dy: i128 = 10 * ((b.y as i128) - (a.y as i128));
    let px: i128 = (p.x as i128) - 10 * (a.x as i128);
    let py: i128 = (p.y as i128) - 10 * (a.y as i128);
    proof {
        let bd: int = 2_000_000_000;
        let bp: int = 2_100_000_000;
        crate::math::lemma_mul_bound2(dx as int, px as int, bd, bp);
        crate::math::lemma_mul_bound2(dy as int, py as int, bd, bp);
        crate::math::lemma_mul_bound2(dx as int, dx as int, bd, bd);
        crate::math::lemma_mul_bound2(dy as int, dy as int, bd, bd);
        crate::math::lemma_mul_bound2(dx as int, py as int, bd, bp);
        crate::math::lemma_mul_bound2(dy as int, px as int, bd, bp);
    }
    let along: i128 = dx * px + dy * py;
    let len2: i128 = dx * dx + dy * dy;
    let across: i128 = dx * py - dy * px;
    proof {
        let bc: int = 8_400_000_000_000_000_000;
        crate::math::lemma_mul_bound2(across as int, across as int, bc, bc);
    }
    0 <= along && along <= len2 && across * across <= len2
}

/// The left half of a mid-point sequence cut at `index`, with a trailing
/// copy of the cut point dropped.
pub open spec fn split_left(mids: Seq<Vec2i>, index: int, p: Vec2i) -> Seq<Vec2i> {
    let l = mids.take(index);
    if l.len() > 0 && l.last() == p {
        l.drop_last()
    } else {
        l
    }
}

/// The right half of a mid-point sequence cut at `index`, with a leading
/// copy of the cut point dropped.
pub open spec fn split_right(mids: Seq<Vec2i>, index: int, p: Vec2i) -> Seq<Vec2i> {
    let r = mids.skip(index);
    if r.len() > 0 && r.first() == p {
        r.drop_first()
    } else {
        r
    }
}

impl WireSegment {
    /// Cuts the poly-line at interior point `p` on sub-segment `index`:
    /// this segment shrinks to `endpoint_a … p` and the returned new
    /// trailing segment runs `p … endpoint_b`.  The cached simulator wire
    /// is copied to the new segment; it is rebuilt on the next simulation
    /// start.
    pub fn split_at(&mut self, index: usize, p: Vec2i) -> (r: WireSegment)
        requires
            index <= old(self).midpoints@.len(),
        ensures
            final(self).endpoint_a == old(self).endpoint_a,
            final(self).midpoints@ == split_left(old(self).midpoints@, index as int, p),
            final(self).endpoint_b == p,
            final(self).sim_wire == old(self).sim_wire,
            r.endpoint_a == p,
            r.midpoints@ == split_right(old(self).midpoints@, index as int, p),
            r.endpoint_b == old(self).endpoint_b,
            r.sim_wire == old(self).sim_wire,
    {
        let ghost mids0 = self.midpoints@;

        let mut keep_left = index;
        if index > 0 && self.midpoints[index - 1] == p {
            keep_left = index - 1;
        }
        let mut left: Vec<Vec2i> = Vec::new();
        for i in 0..keep_left
            invariant
                keep_left <= mids0.len(),
                self.midpoints@ == mids0,
                left@ == mids0.take(i as int),
        {
            left.push(self.midpoints[i]);
            proof {
                assert(left@ =~= mids0.take(i + 1 as int));
            }
        }

        let mut start_right = index;
        if index < self.midpoints.len() && self.midpoints[index] == p {
            start_right = index + 1;
        }
        let mut right: Vec<Vec2i> = Vec::new();
        let n = self.midpoints.len();
        for i in start_right..n
            invariant
                start_right <= n == mids0.len(),
                self.midpoints@ == mids0,
                right@ == mids0.subrange(start_right as int, i as int),
        {
            right.push(self.midpoints[i]);
            proof {
                assert(right@ =~= mids0.subrange(start_right as int, i + 1 as int));
            }
        }

        proof {
            assert(left@ =~= split_left(mids0, index as int, p));
            assert(right@ =~= split_right(mids0, index as int, p));
        }

        let new_segment = WireSegment {
            endpoint_a: p,
            midpoints: right,
            endpoint_b: self.endpoint_b,
            sim_wire: self.sim_wire,
        };
        self.midpoints = left;
        self.endpoint_b = p;
        new_segment
    }
}

/// Re-merging the two halves of a split reconstructs the original point
/// sequence: joining the left half's points to the right half's points
/// (sharing the cut point once) gives back the original sequence exactly
/// when the cut point already stood beside the cut, and the original
/// sequence with the cut point inserted at the cut otherwise.
///
/// The one sequence left out is a cut whose point stands on both sides at
/// once (`… p, p …`), which the routing rule's single mid-point can never
/// produce.
pub proof fn lemma_split_merge(a: Vec2i, mids: Seq<Vec2i>, b: Vec2i, index: int, p: Vec2i)
    requires
        0 <= index <= mids.len(),
        !((index > 0 && mids[index - 1] == p) && (index < mids.len() && mids[index] == p)),
    ensures
        ({
            let original = seq![a] + mids + seq![b];
            let first_half = seq![a] + split_left(mids, index, p) + seq![p];
            let second_half = seq![p] + split_right(mids, index, p) + seq![b];
            let merged = first_half + second_half.drop_first();
            if (index > 0 && mids[index - 1] == p) || (index < mids.len() && mids[index] == p) {
                merged == original
            } else {
                merged == original.insert(index + 1, p)
            }
        }),
{
    let original = seq![a] + mids + seq![b];
    let first_half = seq![a] + split_left(mids, index, p) + seq![p];
    let second_half = seq![p] + split_right(mids, index, p) + seq![b];
    let merged = first_half + second_half.drop_first();
    assert(mids.take(index) + mids.skip(index) =~= mids);
    if index > 0 && mids[index - 1] == p {
        assert(merged =~= original);
    } else if index < mids.len() && mids[index] == p {
        assert(merged =~= original);
    } else {
        assert(merged =~= original.insert(index + 1, p));
    }
}

/// A found leg index lies within the poly-line.
pub proof fn lemma_first_leg_hit_range(pts: Seq<Vec2i>, p: Vec2f, i: int)
    ensures
        first_leg_hit(pts, p, i) matches Some(l) ==> i <= l < pts.len() - 1,
    decreases pts.len() - i,
{
    if 0 <= i && i + 1 < pts.len() {
        lemma_first_leg_hit_range(pts, p, i + 1);
    }
}

} // verus!
