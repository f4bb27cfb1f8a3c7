//! Netlist construction: grouping wire segments into nets through shared
//! endpoints, and inferring each net's bit width from the anchors it
//! touches.

use vstd::prelude::*;
use crate::component::{Anchor, Component, ComponentKind};
use crate::wire::WireSegment;

verus! {

/// Two segments connect iff they share an endpoint (mid-points do not
/// join wires).
pub open spec fn segs_connect(x: WireSegment, y: WireSegment) -> bool {
    ||| x.endpoint_a == y.endpoint_a
    ||| x.endpoint_a == y.endpoint_b
    ||| x.endpoint_b == y.endpoint_a
    ||| x.endpoint_b == y.endpoint_b
}

/// Adjacency of segments `i` and `j` of `s`.
pub open spec fn connected(s: Seq<WireSegment>, i: int, j: int) -> bool {
    segs_connect(s[i], s[j])
}

/// `path` is a walk through `s` along shared endpoints.
pub open spec fn is_path(s: Seq<WireSegment>, path: Seq<int>) -> bool {
    &&& path.len() >= 1
    &&& forall|k: int| 0 <= k < path.len() ==> 0 <= #[trigger] path[k] < s.len()
    &&& forall|k: int| 0 <= k < path.len() - 1 ==> connected(s, #[trigger] path[k], path[k + 1])
}

/// Segment `j` can be reached from segment `i` along shared endpoints.
pub open spec fn reachable(s: Seq<WireSegment>, i: int, j: int) -> bool {
    exists|path: Seq<int>| is_path(s, path) && path.first() == i && path.last() == j
}

/// Every segment reaches itself.
pub proof fn lemma_reachable_refl(s: Seq<WireSegment>, i: int)
    requires
        0 <= i < s.len(),
    ensures
        reachable(s, i, i),
{
    let path = seq![i];
    assert(is_path(s, path) && path.first() == i && path.last() == i);
}

/// Reachability extends along one adjacency.
pub proof fn lemma_reachable_step(s: Seq<WireSegment>, i: int, j: int, k: int)
    requires
        reachable(s, i, j),
        connected(s, j, k),
        0 <= k < s.len(),
    ensures
        reachable(s, i, k),
{
    let path = choose|path: Seq<int>| is_path(s, path) && path.first() == i && path.last() == j;
    let path2 = path.push(k);
    assert(path2.last() == k);
    assert(path2.first() == i);
    assert forall|m: int| 0 <= m < path2.len() - 1 implies connected(
        s,
        #[trigger] path2[m],
        path2[m + 1],
    ) by {
        if m < path.len() - 1 {
            assert(path2[m] == path[m] && path2[m + 1] == path[m + 1]);
        } else {
            assert(path2[m] == path.last() && path2[m + 1] == k);
        }
    }
    assert(is_path(s, path2));
}

/// Adjacency is symmetric.
pub proof fn lemma_connected_sym(s: Seq<WireSegment>, i: int, j: int)
    requires
        connected(s, i, j),
    ensures
        connected(s, j, i),
{
}

/// Reachability is symmetric: a walk can be run backwards.
pub proof fn lemma_reachable_sym(s: Seq<WireSegment>, i: int, j: int)
    requires
        reachable(s, i, j),
    ensures
        reachable(s, j, i),
{
    let path = choose|path: Seq<int>| is_path(s, path) && path.first() == i && path.last() == j;
    let len = path.len();
    let rev = Seq::new(len, |m: int| path[len - 1 - m]);
    assert(rev.first() == j && rev.last() == i);
    assert forall|m: int| 0 <= m < rev.len() - 1 implies connected(
        s,
        #[trigger] rev[m],
        rev[m + 1],
    ) by {
        assert(connected(s, path[len - 2 - m], path[len - 1 - m]));
    }
    assert(is_path(s, rev));
}

/// Reachability is transitive: two walks join at their shared end.
pub proof fn lemma_reachable_trans(s: Seq<WireSegment>, i: int, j: int, k: int)
    requires
        reachable(s, i, j),
        reachable(s, j, k),
    ensures
        reachable(s, i, k),
{
    let p1 = choose|p: Seq<int>| is_path(s, p) && p.first() == i && p.last() == j;
    let p2 = choose|p: Seq<int>| is_path(s, p) && p.first() == j && p.last() == k;
    let cat = p1 + p2.drop_first();
    assert(cat.first() == i);
    assert(cat.last() == k) by {
        if p2.len() == 1 {
            assert(cat =~= p1);
        } else {
            assert(cat.last() == p2.last());
        }
    }
    assert forall|m: int| 0 <= m < cat.len() - 1 implies connected(
        s,
        #[trigger] cat[m],
        cat[m + 1],
    ) by {
        if m < p1.len() - 1 {
            assert(cat[m] == p1[m] && cat[m + 1] == p1[m + 1]);
        } else if m == p1.len() - 1 {
            assert(cat[m] == j && cat[m + 1] == p2[1]);
            assert(connected(s, p2[0], p2[1]));
        } else {
            assert(cat[m] == p2[m - p1.len() + 1] && cat[m + 1] == p2[m - p1.len() + 2]);
        }
    }
    assert forall|m: int| 0 <= m < cat.len() implies 0 <= #[trigger] cat[m] < s.len() by {
        if m < p1.len() {
            assert(cat[m] == p1[m]);
        } else {
            assert(cat[m] == p2[m - p1.len() + 1]);
        }
    }
    assert(is_path(s, cat));
}

/// Marker for a segment not yet claimed by any group.
pub const UNGROUPED: usize = usize::MAX;

/// How many entries of `m` are still unclaimed.
pub open spec fn ungrouped_count(m: Seq<usize>) -> nat
    decreases m.len(),
{
    if m.len() == 0 {
        0
    } else {
        ungrouped_count(m.drop_last()) + if m.last() == UNGROUPED {
            1nat
        } else {
            0nat
        }
    }
}

/// Claiming an unclaimed entry lowers the unclaimed count by one.
proof fn lemma_ungrouped_update(m: Seq<usize>, j: int, v: usize)
    requires
        0 <= j < m.len(),
        m[j] == UNGROUPED,
        v != UNGROUPED,
    ensures
        ungrouped_count(m.update(j, v)) + 1 == ungrouped_count(m),
    decreases m.len(),
{
    if j == m.len() - 1 {
        assert(m.update(j, v).drop_last() =~= m.drop_last());
        assert(m.update(j, v).last() == v);
    } else {
        lemma_ungrouped_update(m.drop_last(), j, v);
        assert(m.update(j, v).drop_last() =~= m.drop_last().update(j, v));
        assert(m.update(j, v).last() == m.last());
    }
}

/// Executable adjacency test.
pub fn connect_test(x: &WireSegment, y: &WireSegment) -> (r: bool)
    ensures
        r == segs_connect(*x, *y),
{
    (x.endpoint_a == y.endpoint_a) || (x.endpoint_a == y.endpoint_b) || (x.endpoint_b
        == y.endpoint_a) || (x.endpoint_b == y.endpoint_b)
}

/// What [`wire_groups`] guarantees: `map` assigns every segment a group
/// below `groups.len()`; segments sharing an endpoint share a group;
/// segments sharing a group are joined by a walk; and `groups` lists each
/// group's members exactly.
pub open spec fn grouping_ok(s: Seq<WireSegment>, groups: Seq<Vec<usize>>, map: Seq<usize>) -> bool {
    &&& map.len() == s.len()
    &&& forall|i: int| 0 <= i < map.len() ==> (#[trigger] map[i] as int) < groups.len()
    &&& forall|i: int, j: int|
        0 <= i < s.len() && 0 <= j < s.len() && connected(s, i, j) ==> map[i] == map[j]
    &&& forall|i: int, j: int|
        0 <= i < s.len() && 0 <= j < s.len() && map[i] == map[j] ==> reachable(s, i, j)
    &&& forall|g: int| 0 <= g < groups.len() ==> (#[trigger] groups[g])@.len() >= 1
    &&& forall|g: int, k: int|
        0 <= g < groups.len() && 0 <= k < groups[g]@.len() ==> (#[trigger] groups[g]@[k] as int)
            < s.len() && map[groups[g]@[k] as int] as int == g
    &&& forall|i: int| 0 <= i < map.len() ==> groups[map[i] as int]@.contains(i as usize)
    &&& forall|g: int, k1: int, k2: int|
        #![trigger groups[g]@[k1], groups[g]@[k2]]
        0 <= g < groups.len() && 0 <= k1 < k2 < groups[g]@.len() ==> groups[g]@[k1]
            != groups[g]@[k2]
}

/// Splits the segments into connectivity groups by an iterative flood
/// fill.  Returns the groups (each a list of segment indices in discovery
/// order) and, for each segment, the index of its group.
#[verifier::loop_isolation(false)]
#[verifier::rlimit(60)]
pub fn wire_groups(segments: &Vec<WireSegment>) -> (r: (Vec<Vec<usize>>, Vec<usize>))
    requires
        segments@.len() < UNGROUPED,
    ensures
        grouping_ok(segments@, r.0@, r.1@),
{
    let ghost s = segments@;
    let n = segments.len();

    let mut map: Vec<usize> = Vec::new();
    for i in 0..n
        invariant
            map@.len() == i,
            forall|k: int| 0 <= k < i ==> map@[k] == UNGROUPED,
    {
        map.push(UNGROUPED);
    }

    let mut groups: Vec<Vec<usize>> = Vec::new();
    let ghost mut roots: Seq<int> = Seq::empty();

    for r in 0..n
        invariant
            map@.len() == n,
            groups@.len() <= r,
            roots.len() == groups@.len(),
            forall|g: int| 0 <= g < roots.len() ==> 0 <= #[trigger] roots[g] < n,
            // every entry is either unclaimed or a valid group index
            forall|i: int|
                0 <= i < n ==> (#[trigger] map@[i] == UNGROUPED || (map@[i] as int)
                    < groups@.len()),
            // the scanned prefix is fully claimed
            forall|i: int| 0 <= i < r ==> #[trigger] map@[i] != UNGROUPED,
            // group member lists are exact
            forall|g: int| 0 <= g < groups@.len() ==> (#[trigger] groups@[g])@.len() >= 1,
            forall|g: int, k: int|
                0 <= g < groups@.len() && 0 <= k < groups@[g]@.len() ==> (#[trigger] groups@[g]@[k] as int) < n && map@[groups@[g]@[k] as int] as int == g,
            forall|i: int|
                0 <= i < n && map@[i] != UNGROUPED ==> groups@[#[trigger] map@[i] as int]@.contains(
                    i as usize,
                ),
            // each group lists a segment at most once
            forall|g: int, k1: int, k2: int|
                #![trigger groups@[g]@[k1], groups@[g]@[k2]]
                0 <= g < groups@.len() && 0 <= k1 < k2 < groups@[g]@.len() ==> groups@[g]@[k1]
                    != groups@[g]@[k2],
            // claimed groups are closed under adjacency
            forall|i: int, j: int|
                0 <= i < n && 0 <= j < n && map@[i] != UNGROUPED && connected(s, i, j)
                    ==> #[trigger] map@[j] == #[trigger] map@[i],
            // every claimed segment is reachable from its group's root
            forall|i: int|
                0 <= i < n && map@[i] != UNGROUPED ==> reachable(
                    s,
                    roots[#[trigger] map@[i] as int],
                    i,
                ),
    {
        if map[r] == UNGROUPED {
            let g = groups.len();
            let ghost map_at_start = map@;
            map.set(r, g);
            proof {
                roots = roots.push(r as int);
                lemma_reachable_refl(s, r as int);
            }
            let mut queue: Vec<usize> = Vec::new();
            queue.push(r);
            proof {
                assert(queue@[0] == r);
                assert forall|i: int| 0 <= i < n && map@[i] as int == g implies queue@.contains(
                    i as usize,
                ) by {
                    if i != r as int {
                        assert(map@[i] == map_at_start[i]);
                    }
                }
            }

            let mut qi: usize = 0;
            while qi < queue.len()
                invariant
                    map@.len() == n,
                    groups@.len() == g,
                    g < UNGROUPED,
                    map@[r as int] as int == g,
                    qi <= queue@.len(),
                    roots.len() == g + 1,
                    roots[g as int] == r as int,
                    forall|gg: int| 0 <= gg < roots.len() ==> 0 <= #[trigger] roots[gg] < n,
                    // queue holds exactly the members of the growing group
                    forall|k: int|
                        0 <= k < queue@.len() ==> (#[trigger] queue@[k] as int) < n && map@[queue@[k] as int] as int == g,
                    forall|i: int|
                        0 <= i < n && map@[i] as int == g ==> queue@.contains(i as usize),
                    forall|k1: int, k2: int|
                        0 <= k1 < k2 < queue@.len() ==> queue@[k1] != queue@[k2],
                    // entries are unclaimed, in an old group, or in this one
                    forall|i: int|
                        0 <= i < n ==> (#[trigger] map@[i] == UNGROUPED || (map@[i] as int) <= g),
                    // old-group entries kept their assignment
                    forall|i: int|
                        0 <= i < n && (map_at_start[i] as int) < g ==> #[trigger] map@[i]
                            == map_at_start[i],
                    forall|i: int|
                        0 <= i < n && (map@[i] as int) < g ==> #[trigger] map@[i]
                            == map_at_start[i],
                    // old group member lists are exact
                    forall|gg: int, k: int|
                        0 <= gg < g && 0 <= k < groups@[gg]@.len() ==> (#[trigger] groups@[gg]@[k] as int) < n && map@[groups@[gg]@[k] as int] as int == gg,
                    forall|i: int|
                        0 <= i < n && (map@[i] as int) < g ==> groups@[#[trigger] map@[i] as int]@.contains(i as usize),
                    // old groups stay closed under adjacency
                    forall|i: int, j: int|
                        0 <= i < n && 0 <= j < n && (map@[i] as int) < g && connected(s, i, j)
                            ==> #[trigger] map@[j] == #[trigger] map@[i],
                    // neighbors of processed members are claimed
                    forall|k: int, j: int|
                        #![trigger queue@[k], map@[j]]
                        0 <= k < qi && 0 <= j < n && connected(s, queue@[k] as int, j) ==> map@[j]
                            != UNGROUPED,
                    // reachability from each group's root
                    forall|i: int|
                        0 <= i < n && map@[i] != UNGROUPED ==> reachable(
                            s,
                            roots[#[trigger] map@[i] as int],
                            i,
                        ),
                    // the scanned prefix stays claimed
                    forall|i: int| 0 <= i < r ==> #[trigger] map@[i] != UNGROUPED,
                decreases ungrouped_count(map@) + queue@.len() - qi,
            {
                let m = queue[qi];
                qi = qi + 1;
                let ghost m0: int = ungrouped_count(map@) + queue@.len() - qi as int;
                for j in 0..n
                    invariant
                        map@.len() == n,
                        groups@.len() == g,
                        map@[r as int] as int == g,
                        qi <= queue@.len(),
                        forall|k: int|
                            0 <= k < queue@.len() ==> (#[trigger] queue@[k] as int) < n && map@[
                                queue@[k] as int] as int == g,
                        forall|i: int|
                            0 <= i < n && map@[i] as int == g ==> queue@.contains(i as usize),
                        forall|k1: int, k2: int|
                            0 <= k1 < k2 < queue@.len() ==> queue@[k1] != queue@[k2],
                        forall|i: int|
                            0 <= i < n ==> (#[trigger] map@[i] == UNGROUPED || (map@[i] as int)
                                <= g),
                        forall|i: int|
                            0 <= i < n && (map_at_start[i] as int) < g ==> #[trigger] map@[i]
                                == map_at_start[i],
                        forall|i: int|
                            0 <= i < n && (map@[i] as int) < g ==> #[trigger] map@[i]
                                == map_at_start[i],
                        forall|gg: int, k: int|
                            0 <= gg < g && 0 <= k < groups@[gg]@.len() ==> (#[trigger] groups@[gg]@[k] as int) < n && map@[groups@[gg]@[k] as int] as int == gg,
                        forall|i: int|
                            0 <= i < n && (map@[i] as int) < g ==> groups@[#[trigger] map@[i] as int]@.contains(i as usize),
                        forall|i: int, j2: int|
                            0 <= i < n && 0 <= j2 < n && (map@[i] as int) < g && connected(s, i, j2)
                                ==> #[trigger] map@[j2] == #[trigger] map@[i],
                        forall|k: int, j2: int|
                            #![trigger queue@[k], map@[j2]]
                            0 <= k < qi - 1 && 0 <= j2 < n && connected(s, queue@[k] as int, j2)
                                ==> map@[j2] != UNGROUPED,
                        // partial progress over the current member's neighbors
                        forall|j2: int|
                            0 <= j2 < j && connected(s, m as int, j2) ==> #[trigger] map@[j2]
                                != UNGROUPED,
                        forall|i: int|
                            0 <= i < n && map@[i] != UNGROUPED ==> reachable(
                                s,
                                roots[#[trigger] map@[i] as int],
                                i,
                            ),
                        forall|i: int| 0 <= i < r ==> #[trigger] map@[i] != UNGROUPED,
                        queue@[qi - 1] == m,
                        ungrouped_count(map@) + queue@.len() - qi as int == m0,
                {
                    if map[j] == UNGROUPED && connect_test(&segments[m], &segments[j]) {
                        let ghost map_before = map@;
                        let ghost q0 = queue@;
                        map.set(j, g);
                        queue.push(j);
                        proof {
                            lemma_ungrouped_update(map_before, j as int, g);
                            assert(reachable(s, r as int, m as int));
                            lemma_reachable_step(s, r as int, m as int, j as int);
                            assert forall|k1: int, k2: int|
                                0 <= k1 < k2 < queue@.len() implies queue@[k1] != queue@[k2] by {
                                if k2 == queue@.len() - 1 {
                                    assert(queue@[k2] == j);
                                    assert(queue@[k1] == q0[k1]);
                                    assert(map_before[q0[k1] as int] as int == g);
                                    assert(map_before[j as int] == UNGROUPED);
                                } else {
                                    assert(queue@[k1] == q0[k1] && queue@[k2] == q0[k2]);
                                }
                            }
                            assert forall|i: int|
                                0 <= i < n && map@[i] as int == g implies queue@.contains(
                                i as usize,
                            ) by {
                                if i == j as int {
                                    assert(queue@[queue@.len() - 1] == j);
                                } else {
                                    assert(map_before[i] == map@[i]);
                                    assert(q0.contains(i as usize));
                                    let k = choose|k: int|
                                        0 <= k < q0.len() && q0[k] == i as usize;
                                    assert(queue@[k] == i as usize);
                                }
                            }
                        }
                    }
                }
            }

            // The new group is closed under adjacency: a neighbor of a
            // member is claimed, and an old group would have claimed the
            // member itself.
            proof {
                assert forall|i: int, j: int|
                    0 <= i < n && 0 <= j < n && map@[i] as int == g && connected(s, i, j)
                        implies map@[j] as int == g by {
                    assert(queue@.contains(i as usize));
                    let k = choose|k: int| 0 <= k < queue@.len() && queue@[k] == i as usize;
                    assert(map@[j] != UNGROUPED);
                    if (map@[j] as int) < g {
                        lemma_connected_sym(s, i, j);
                        assert(map@[i] == map@[j]);
                    }
                }
            }
            groups.push(queue);
        }
    }

    proof {
        assert forall|i: int, j: int|
            0 <= i < s.len() && 0 <= j < s.len() && map@[i] == map@[j] implies reachable(
            s,
            i,
            j,
        ) by {
            let root = roots[map@[i] as int];
            assert(reachable(s, root, i));
            assert(reachable(s, root, j));
            lemma_reachable_sym(s, root, i);
            lemma_reachable_trans(s, i, root, j);
        }
    }
    (groups, map)
}

/// Along a walk, a map that respects adjacency never changes value.
proof fn lemma_path_same_group(s: Seq<WireSegment>, map: Seq<usize>, p: Seq<int>)
    requires
        map.len() == s.len(),
        forall|a: int, b: int|
            0 <= a < s.len() && 0 <= b < s.len() && connected(s, a, b) ==> map[a] == map[b],
        is_path(s, p),
    ensures
        map[p.first()] == map[p.last()],
    decreases p.len(),
{
    if p.len() > 1 {
        assert(connected(s, p[0], p[1]));
        let q = p.drop_first();
        assert(is_path(s, q)) by {
            assert(forall|k: int| 0 <= k < q.len() ==> q[k] == p[k + 1]);
        }
        lemma_path_same_group(s, map, q);
    }
}

/// Two segments joined by a walk sit in the same group of any grouping
/// that respects adjacency.
pub proof fn lemma_reachable_same_group(s: Seq<WireSegment>, map: Seq<usize>, i: int, j: int)
    requires
        map.len() == s.len(),
        forall|a: int, b: int|
            0 <= a < s.len() && 0 <= b < s.len() && connected(s, a, b) ==> map[a] == map[b],
        reachable(s, i, j),
    ensures
        map[i] == map[j],
{
    let p = choose|p: Seq<int>| is_path(s, p) && p.first() == i && p.last() == j;
    lemma_path_same_group(s, map, p);
}

/// Whether an anchor sits on one of the segment's drawn endpoints
/// (mid-points do not connect).
pub open spec fn anchor_touches_seg(a: Anchor, t: WireSegment) -> bool {
    a.position == t.endpoint_a || a.position == t.endpoint_b
}

/// Whether some anchor of some component declares width `w` and sits on an
/// endpoint of a segment in group `g`.
pub open spec fn group_has_width(
    s: Seq<WireSegment>,
    comps: Seq<Component>,
    map: Seq<usize>,
    g: int,
    w: u8,
) -> bool {
    exists|c: int, k: int, i: int|
        #![trigger comps[c].spec_anchors()[k], map[i]]
        0 <= c < comps.len() && 0 <= k < comps[c].spec_anchors().len() && 0 <= i < s.len() && map[i] as int == g && anchor_touches_seg(comps[c].spec_anchors()[k], s[i]) && comps[c].spec_anchors()[k].width == w
}

/// Every anchor a well-formed component declares has width at least one.
pub proof fn lemma_anchor_widths_positive(c: Component)
    requires
        c.wf(),
    ensures
        forall|k: int|
            0 <= k < c.spec_anchors().len() ==> (#[trigger] c.spec_anchors()[k]).width >= 1,
{
    assert forall|k: int|
        0 <= k < c.spec_anchors().len() implies (#[trigger] c.spec_anchors()[k]).width >= 1 by {
        let ka = c.kind.spec_anchors();
        assert(c.spec_anchors()[k].width == ka[k].width);
        match c.kind {
            ComponentKind::Splitter { width, ranges } => {
                if k >= 1 {
                    assert(ka[k].width == (ranges@[k - 1].1 - ranges@[k - 1].0 + 1) as u8);
                }
            },
            _ => {},
        }
    }
}

/// The scan state of width inference: for every anchor/segment pair
/// already visited (in lexicographic order of component, anchor, segment,
/// bounded by `cl`, `kl`, `il`) where the anchor touches the segment, the
/// segment's group has been assigned exactly that anchor's width.
pub open spec fn scan_done(
    s: Seq<WireSegment>,
    comps: Seq<Component>,
    map: Seq<usize>,
    found: Seq<u8>,
    cl: int,
    kl: int,
    il: int,
) -> bool {
    forall|c: int, k: int, i: int|
        #![trigger comps[c].spec_anchors()[k], map[i]]
        0 <= c < comps.len() && 0 <= k < comps[c].spec_anchors().len() && 0 <= i < s.len() && (c
            < cl || (c == cl && (k < kl || (k == kl && i < il)))) && anchor_touches_seg(
            comps[c].spec_anchors()[k],
            s[i],
        ) ==> found[map[i] as int] == comps[c].spec_anchors()[k].width
}

/// Two anchors of different declared widths touch one wire group: the
/// group's width cannot be inferred and simulation must not start.
#[derive(Clone, Copy, Debug, PartialEq, Eq, Structural)]
pub struct WidthConflict {}

/// Infers the bit width of each of the `n_groups` wire groups: every
/// anchor touching a group's segment endpoint must declare the same width,
/// a group touching no anchor defaults to width one.
#[verifier::loop_isolation(false)]
#[verifier::rlimit(100)]
#[verifier::spinoff_prover]
pub fn group_widths(
    segments: &Vec<WireSegment>,
    components: &Vec<Component>,
    map: &Vec<usize>,
    n_groups: usize,
) -> (r: Result<Vec<u8>, WidthConflict>)
    requires
        map@.len() == segments@.len(),
        forall|i: int| 0 <= i < map@.len() ==> (#[trigger] map@[i] as int) < n_groups,
        forall|c: int| 0 <= c < components@.len() ==> (#[trigger] components@[c]).wf(),
    ensures
        r matches Ok(ws) ==> {
            &&& ws@.len() == n_groups
            &&& forall|g: int, w: u8|
                0 <= g < n_groups && #[trigger] group_has_width(segments@, components@, map@, g, w)
                    ==> ws@[g] == w
            &&& forall|g: int, w1: u8, w2: u8|
                0 <= g < n_groups && #[trigger] group_has_width(segments@, components@, map@, g, w1)
                    && #[trigger] group_has_width(segments@, components@, map@, g, w2) ==> w1 == w2
            &&& forall|g: int|
                0 <= g < n_groups && !(exists|w: u8|
                    group_has_width(segments@, components@, map@, g, w)) ==> #[trigger] ws@[g]
                    == 1
            &&& forall|g: int| 0 <= g < n_groups ==> #[trigger] ws@[g] >= 1
        },
        r is Err ==> exists|g: int, w1: u8, w2: u8|
            0 <= g < n_groups && w1 != w2 && #[trigger] group_has_width(
                segments@,
                components@,
                map@,
                g,
                w1,
            ) && #[trigger] group_has_width(segments@, components@, map@, g, w2),
{
    let ghost s = segments@;
    let ghost comps = components@;
    let ns = segments.len();
    let nc = components.len();

    // Transformed anchors, one list per component.
    let mut anchor_lists: Vec<Vec<Anchor>> = Vec::new();
    for c in 0..nc
        invariant
            anchor_lists@.len() == c,
            forall|c2: int|
                0 <= c2 < c ==> (#[trigger] anchor_lists@[c2])@ == comps[c2].spec_anchors(),
    {
        anchor_lists.push(components[c].anchors());
    }

    // 0 marks a group with no width assigned yet; declared widths are >= 1.
    let mut found: Vec<u8> = Vec::new();
    for g in 0..n_groups
        invariant
            found@.len() == g,
            forall|g2: int| 0 <= g2 < g ==> #[trigger] found@[g2] == 0,
    {
        found.push(0);
    }

    for c in 0..nc
        invariant
            found@.len() == n_groups,
            anchor_lists@.len() == nc,
            forall|c2: int|
                0 <= c2 < nc ==> (#[trigger] anchor_lists@[c2])@ == comps[c2].spec_anchors(),
            forall|g: int|
                0 <= g < n_groups ==> #[trigger] found@[g] == 0 || (found@[g] >= 1
                    && group_has_width(s, comps, map@, g, found@[g])),
            scan_done(s, comps, map@, found@, c as int, 0, 0),
    {
        let nk = anchor_lists[c].len();
        for k in 0..nk
            invariant
                found@.len() == n_groups,
                nk == comps[c as int].spec_anchors().len(),
                forall|g: int|
                    0 <= g < n_groups ==> #[trigger] found@[g] == 0 || (found@[g] >= 1
                        && group_has_width(s, comps, map@, g, found@[g])),
                scan_done(s, comps, map@, found@, c as int, k as int, 0),
        {
            let a = anchor_lists[c][k];
            proof {
                lemma_anchor_widths_positive(comps[c as int]);
                assert(a == comps[c as int].spec_anchors()[k as int]);
            }
            for i in 0..ns
                invariant
                    found@.len() == n_groups,
                    forall|g: int|
                        0 <= g < n_groups ==> #[trigger] found@[g] == 0 || (found@[g] >= 1
                            && group_has_width(s, comps, map@, g, found@[g])),
                    scan_done(s, comps, map@, found@, c as int, k as int, i as int),
            {
                let touches = {
                    let t = &segments[i];
                    (a.position == t.endpoint_a) || (a.position == t.endpoint_b)
                };
                if touches {
                    let g = map[i];
                    proof {
                        assert(group_has_width(s, comps, map@, g as int, a.width));
                    }
                    if found[g] == 0 {
                        found.set(g, a.width);
                    } else if found[g] != a.width {
                        proof {
                            assert(group_has_width(s, comps, map@, g as int, found@[g as int]));
                        }
                        return Err(WidthConflict {});
                    }
                }
            }
        }
    }

    let mut ws: Vec<u8> = Vec::new();
    for g in 0..n_groups
        invariant
            found@.len() == n_groups,
            ws@.len() == g,
            forall|g2: int|
                0 <= g2 < n_groups ==> #[trigger] found@[g2] == 0 || (found@[g2] >= 1
                    && group_has_width(s, comps, map@, g2, found@[g2])),
            scan_done(s, comps, map@, found@, nc as int, 0, 0),
            forall|g2: int|
                0 <= g2 < g ==> #[trigger] ws@[g2] == (if found@[g2] == 0 {
                    1u8
                } else {
                    found@[g2]
                }),
    {
        let w = found[g];
        ws.push(if w == 0 {
            1
        } else {
            w
        });
    }

    proof {
        assert forall|g: int, w: u8|
            0 <= g < n_groups && #[trigger] group_has_width(s, comps, map@, g, w) implies ws@[g]
            == w by {
            let (c, k, i): (int, int, int) = choose|c: int, k: int, i: int|
                #![trigger comps[c].spec_anchors()[k], map@[i]]
                0 <= c < comps.len() && 0 <= k < comps[c].spec_anchors().len() && 0 <= i < s.len()
                    && map@[i] as int == g && anchor_touches_seg(comps[c].spec_anchors()[k], s[i])
                    && comps[c].spec_anchors()[k].width == w;
            lemma_anchor_widths_positive(comps[c]);
            assert(found@[g] == w);
        }
    }
    Ok(ws)
}

} // verus!
