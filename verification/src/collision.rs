//! Overlap tests for convex shapes by the separating axis theorem: two convex
//! shapes are apart as soon as their projections onto one axis are apart.
//!
//! The planar test tries the normals of all edges of both shapes. The
//! spatial test tries the normals of all faces of both shapes, and not the
//! cross products of their edges. An answer that two shapes do not collide
//! is always right (module `hull`). An answer that they collide is right for
//! the cubes of the simulation, whose faces lie along the coordinate axes
//! (module `boxes`); two shapes that are turned against each other may be
//! reported as colliding while a gap is left between their edges.

use vstd::prelude::*;
use vstd::arithmetic::div_mod::{lemma_mod_self_0, lemma_small_mod};
use crate::fixed::lemma_product_bound;
use crate::vector::{
    cross, dot2, dot3, edge_normal, face_normal, normalize, perpendicular, unit_normal, zero3,
    Axis2, Vec2, Vec3,
};

verus! {

/// Lower end of the projection interval of an empty shape.
pub const EMPTY_LOW: i128 = i128::MAX;

/// Upper end of the projection interval of an empty shape.
pub const EMPTY_HIGH: i128 = i128::MIN;

/// The least element of `s`, or `EMPTY_LOW` where `s` is empty.
pub open spec fn lowest(s: Seq<int>) -> int
    decreases s.len(),
{
    if s.len() == 0 {
        EMPTY_LOW as int
    } else if s.last() < lowest(s.drop_last()) {
        s.last()
    } else {
        lowest(s.drop_last())
    }
}

/// The greatest element of `s`, or `EMPTY_HIGH` where `s` is empty.
pub open spec fn highest(s: Seq<int>) -> int
    decreases s.len(),
{
    if s.len() == 0 {
        EMPTY_HIGH as int
    } else if s.last() > highest(s.drop_last()) {
        s.last()
    } else {
        highest(s.drop_last())
    }
}

/// Whether every element of `s` is a 128-bit value.
pub open spec fn all_in_i128(s: Seq<int>) -> bool {
    forall|i: int| 0 <= i < s.len() ==> i128::MIN <= #[trigger] s[i] <= i128::MAX
}

/// `lowest` bounds every element from below and, on a non-empty sequence of
/// 128-bit values, is one of the elements.
pub proof fn lemma_lowest(s: Seq<int>)
    ensures
        forall|i: int| 0 <= i < s.len() ==> lowest(s) <= #[trigger] s[i],
        s.len() > 0 && all_in_i128(s) ==> exists|i: int| 0 <= i < s.len() && s[i] == lowest(s),
        lowest(s) <= EMPTY_LOW,
    decreases s.len(),
{
    if s.len() > 0 {
        let t = s.drop_last();
        lemma_lowest(t);
        assert forall|i: int| 0 <= i < s.len() implies lowest(s) <= #[trigger] s[i] by {
            if i < t.len() {
                assert(t[i] == s[i]);
            }
        }
        if all_in_i128(s) {
            assert(all_in_i128(t)) by {
                assert forall|i: int| 0 <= i < t.len() implies i128::MIN <= #[trigger] t[i]
                    <= i128::MAX by {
                    assert(t[i] == s[i]);
                }
            }
            if s.last() < lowest(t) || t.len() == 0 {
                assert(s[s.len() - 1] == lowest(s));
            } else {
                let i = choose|i: int| 0 <= i < t.len() && t[i] == lowest(t);
                assert(s[i] == lowest(s));
            }
        }
    }
}

/// `highest` bounds every element from above and, on a non-empty sequence of
/// 128-bit values, is one of the elements.
pub proof fn lemma_highest(s: Seq<int>)
    ensures
        forall|i: int| 0 <= i < s.len() ==> #[trigger] s[i] <= highest(s),
        s.len() > 0 && all_in_i128(s) ==> exists|i: int| 0 <= i < s.len() && s[i] == highest(s),
        highest(s) >= EMPTY_HIGH,
    decreases s.len(),
{
    if s.len() > 0 {
        let t = s.drop_last();
        lemma_highest(t);
        assert forall|i: int| 0 <= i < s.len() implies #[trigger] s[i] <= highest(s) by {
            if i < t.len() {
                assert(t[i] == s[i]);
            }
        }
        if all_in_i128(s) {
            assert(all_in_i128(t)) by {
                assert forall|i: int| 0 <= i < t.len() implies i128::MIN <= #[trigger] t[i]
                    <= i128::MAX by {
                    assert(t[i] == s[i]);
                }
            }
            if s.last() > highest(t) || t.len() == 0 {
                assert(s[s.len() - 1] == highest(s));
            } else {
                let i = choose|i: int| 0 <= i < t.len() && t[i] == highest(t);
                assert(s[i] == highest(s));
            }
        }
    }
}

/// An element of `s` that bounds every element from below is `lowest(s)`.
pub proof fn lemma_lowest_is(s: Seq<int>, m: int, at: int)
    requires
        all_in_i128(s),
        0 <= at < s.len(),
        s[at] == m,
        forall|i: int| 0 <= i < s.len() ==> m <= #[trigger] s[i],
    ensures
        lowest(s) == m,
{
    lemma_lowest(s);
    let i = choose|i: int| 0 <= i < s.len() && s[i] == lowest(s);
    assert(m <= s[i]);
    assert(lowest(s) <= s[at]);
}

/// An element of `s` that bounds every element from above is `highest(s)`.
pub proof fn lemma_highest_is(s: Seq<int>, m: int, at: int)
    requires
        all_in_i128(s),
        0 <= at < s.len(),
        s[at] == m,
        forall|i: int| 0 <= i < s.len() ==> #[trigger] s[i] <= m,
    ensures
        highest(s) == m,
{
    lemma_highest(s);
    let i = choose|i: int| 0 <= i < s.len() && s[i] == highest(s);
    assert(s[i] <= m);
    assert(s[at] <= highest(s));
}

/// The projections of a planar shape's vertices onto `axis`, in vertex order.
pub open spec fn projections_2d(verts: Seq<Vec2>, axis: Axis2) -> Seq<int> {
    Seq::new(verts.len(), |i: int| dot2(verts[i], axis))
}

/// The projections of a spatial shape's vertices onto `axis`, in vertex order.
pub open spec fn projections_3d(verts: Seq<Vec3>, axis: Vec3) -> Seq<int> {
    Seq::new(verts.len(), |i: int| dot3(verts[i], axis))
}

/// Whether the intervals `[lo1, hi1]` and `[lo2, hi2]` are apart. Intervals
/// that merely touch are not apart.
pub open spec fn intervals_apart(lo1: int, hi1: int, lo2: int, hi2: int) -> bool {
    lo1 > hi2 || lo2 > hi1
}

/// Whether `axis` separates the planar shapes `a` and `b`.
pub open spec fn separated_2d(a: Seq<Vec2>, b: Seq<Vec2>, axis: Axis2) -> bool {
    intervals_apart(
        lowest(projections_2d(a, axis)),
        highest(projections_2d(a, axis)),
        lowest(projections_2d(b, axis)),
        highest(projections_2d(b, axis)),
    )
}

/// The axis perpendicular to edge `i` of the vertex loop `poly`. The edge
/// after the last vertex closes the loop back to the first.
pub open spec fn edge_axis(poly: Seq<Vec2>, i: int) -> Axis2 {
    edge_normal(poly[i], poly[(i + 1) % (poly.len() as int)])
}

/// No edge normal of `outline` separates `a` from `b`.
pub open spec fn no_edge_separates(outline: Seq<Vec2>, a: Seq<Vec2>, b: Seq<Vec2>) -> bool {
    forall|i: int| 0 <= i < outline.len() ==> !separated_2d(a, b, #[trigger] edge_axis(outline, i))
}

/// Whether two planar vertex loops collide: no edge normal of either loop
/// separates them.
pub open spec fn overlap_2d(a: Seq<Vec2>, b: Seq<Vec2>) -> bool {
    no_edge_separates(a, a, b) && no_edge_separates(b, a, b)
}

/// The successor of `i` around a loop of `n` places.
proof fn lemma_wrapped_successor(i: int, n: int)
    requires
        0 <= i < n,
    ensures
        (i + 1) % n == if i + 1 == n {
            0
        } else {
            i + 1
        },
{
    if i + 1 == n {
        lemma_mod_self_0(n);
    } else {
        lemma_small_mod((i + 1) as nat, n as nat);
    }
}

/// Projects every vertex onto `axis` and returns the least and the greatest
/// projection; `(EMPTY_LOW, EMPTY_HIGH)` for no vertices.
pub fn get_projected_min_max(vertices: &[Vec2], axis: &Axis2) -> (r: (i128, i128))
    ensures
        r.0 == lowest(projections_2d(vertices@, *axis)),
        r.1 == highest(projections_2d(vertices@, *axis)),
{
    let mut min: i128 = EMPTY_LOW;
    let mut max: i128 = EMPTY_HIGH;
    let ghost all = projections_2d(vertices@, *axis);
    for idx in 0..vertices.len()
        invariant
            all == projections_2d(vertices@, *axis),
            min == lowest(all.take(idx as int)),
            max == highest(all.take(idx as int)),
    {
        let vertex = vertices[idx];
        proof {
            lemma_product_bound(
                vertex.x as int,
                axis.x as int,
                0x8000_0000,
                0x8000_0000_0000_0000,
            );
            lemma_product_bound(
                vertex.y as int,
                axis.y as int,
                0x8000_0000,
                0x8000_0000_0000_0000,
            );
            assert(all.take(idx + 1).drop_last() =~= all.take(idx as int));
            assert(all.take(idx + 1).last() == dot2(vertex, *axis));
        }
        let proj: i128 = (vertex.x as i128) * (axis.x as i128) + (vertex.y as i128) * (
        axis.y as i128);
        if proj < min {
            min = proj;
        }
        if proj > max {
            max = proj;
        }
    }
    proof {
        assert(all.take(vertices@.len() as int) =~= all);
    }
    (min, max)
}

/// Separating-axis test for two planar vertex loops: `true` when they
/// collide, that is when no edge normal of either loop separates them.
pub fn test_collision_2d(v1: &[Vec2], v2: &[Vec2]) -> (colliding: bool)
    ensures
        colliding == overlap_2d(v1@, v2@),
{
    let n1 = v1.len();
    for i in 0..n1
        invariant
            n1 == v1@.len(),
            forall|k: int| 0 <= k < i ==> !separated_2d(v1@, v2@, #[trigger] edge_axis(v1@, k)),
    {
        let start = v1[i];
        let end = v1[if i + 1 == n1 {
            0
        } else {
            i + 1
        }];
        let axis = perpendicular(start, end);
        proof {
            lemma_wrapped_successor(i as int, n1 as int);
        }
        let (min_1, max_1) = get_projected_min_max(v1, &axis);
        let (min_2, max_2) = get_projected_min_max(v2, &axis);
        if min_1 > max_2 || min_2 > max_1 {
            assert(separated_2d(v1@, v2@, edge_axis(v1@, i as int)));
            return false;
        }
    }
    let n2 = v2.len();
    for i in 0..n2
        invariant
            n2 == v2@.len(),
            no_edge_separates(v1@, v1@, v2@),
            forall|k: int| 0 <= k < i ==> !separated_2d(v1@, v2@, #[trigger] edge_axis(v2@, k)),
    {
        let start = v2[i];
        let end = v2[if i + 1 == n2 {
            0
        } else {
            i + 1
        }];
        let axis = perpendicular(start, end);
        proof {
            lemma_wrapped_successor(i as int, n2 as int);
        }
        let (min_1, max_1) = get_projected_min_max(v1, &axis);
        let (min_2, max_2) = get_projected_min_max(v2, &axis);
        if min_1 > max_2 || min_2 > max_1 {
            assert(separated_2d(v1@, v2@, edge_axis(v2@, i as int)));
            return false;
        }
    }
    true
}

/// Collision is commutative: swapping the two shapes cannot change the
/// answer of the planar test.
pub proof fn lemma_collision_2d_symmetric(a: Seq<Vec2>, b: Seq<Vec2>)
    ensures
        overlap_2d(a, b) == overlap_2d(b, a),
{
    assert forall|axis: Axis2| separated_2d(a, b, axis) == separated_2d(b, a, axis) by {}
    assert(no_edge_separates(a, a, b) == no_edge_separates(a, b, a)) by {
        assert forall|i: int| 0 <= i < a.len() implies separated_2d(a, b, edge_axis(a, i))
            == separated_2d(b, a, #[trigger] edge_axis(a, i)) by {}
    }
    assert(no_edge_separates(b, a, b) == no_edge_separates(b, b, a)) by {
        assert forall|i: int| 0 <= i < b.len() implies separated_2d(a, b, edge_axis(b, i))
            == separated_2d(b, a, #[trigger] edge_axis(b, i)) by {}
    }
}

/// Two planar shapes with a vertex in common collide: no axis can separate
/// them, since both projections hold the projection of that vertex.
pub proof fn lemma_shared_vertex_collides_2d(a: Seq<Vec2>, b: Seq<Vec2>, i: int, j: int)
    requires
        0 <= i < a.len(),
        0 <= j < b.len(),
        a[i] == b[j],
    ensures
        overlap_2d(a, b),
{
    assert forall|axis: Axis2| !separated_2d(a, b, axis) by {
        let pa = projections_2d(a, axis);
        let pb = projections_2d(b, axis);
        lemma_lowest(pa);
        lemma_highest(pa);
        lemma_lowest(pb);
        lemma_highest(pb);
        assert(pa[i] == pb[j]);
    }
}

/// Largest magnitude of the projection of a vertex onto a `Vec3` axis.
pub open spec fn projection_bound() -> int {
    0xc000_0000_0000_0000
}

/// Whether `axis` separates the spatial shapes `a` and `b`.
pub open spec fn separated_3d(a: Seq<Vec3>, b: Seq<Vec3>, axis: Vec3) -> bool {
    intervals_apart(
        lowest(projections_3d(a, axis)),
        highest(projections_3d(a, axis)),
        lowest(projections_3d(b, axis)),
        highest(projections_3d(b, axis)),
    )
}

/// How far the projections of `a` and `b` onto `axis` reach into each other:
/// the smaller of the two one-sided overlaps.
pub open spec fn penetration(a: Seq<Vec3>, b: Seq<Vec3>, axis: Vec3) -> int {
    let from_below = highest(projections_3d(b, axis)) - lowest(projections_3d(a, axis));
    let from_above = highest(projections_3d(a, axis)) - lowest(projections_3d(b, axis));
    if from_below < from_above {
        from_below
    } else {
        from_above
    }
}

/// Number of triangles read from `len` vertices when a new triangle starts
/// every `stride` vertices. A start with fewer than three vertices left holds
/// no triangle.
pub open spec fn triangle_count(len: int, stride: int) -> int {
    if len < 3 || stride <= 0 {
        0
    } else {
        (len - 3) / stride + 1
    }
}

/// The unit normal of triangle `k` of a triangle soup, `None` where the
/// triangle is degenerate and spans no plane.
pub open spec fn face_axis(verts: Seq<Vec3>, stride: int, k: int) -> Option<Vec3> {
    unit_normal(face_normal(verts[k * stride], verts[k * stride + 1], verts[k * stride + 2]))
}

/// Number of triangles of both shapes together.
pub open spec fn axis_count(a: Seq<Vec3>, sa: int, b: Seq<Vec3>, sb: int) -> int {
    triangle_count(a.len() as int, sa) + triangle_count(b.len() as int, sb)
}

/// The axes in the order in which they are tested: the face normals of `a`,
/// then those of `b`.
pub open spec fn candidate_axis(a: Seq<Vec3>, sa: int, b: Seq<Vec3>, sb: int, c: int) -> Option<
    Vec3,
> {
    if c < triangle_count(a.len() as int, sa) {
        face_axis(a, sa, c)
    } else {
        face_axis(b, sb, c - triangle_count(a.len() as int, sa))
    }
}

/// Candidate `c` is an axis and separates the two shapes.
pub open spec fn candidate_separates(a: Seq<Vec3>, sa: int, b: Seq<Vec3>, sb: int, c: int) -> bool {
    candidate_axis(a, sa, b, sb, c) matches Some(axis) && separated_3d(a, b, axis)
}

/// The penetration depth along candidate `c`, where that candidate is an axis.
pub open spec fn candidate_depth(a: Seq<Vec3>, sa: int, b: Seq<Vec3>, sb: int, c: int) -> int {
    penetration(a, b, candidate_axis(a, sa, b, sb, c).unwrap())
}

/// Whether two triangle soups collide: no face normal of either shape
/// separates them.
pub open spec fn overlap_3d(a: Seq<Vec3>, sa: int, b: Seq<Vec3>, sb: int) -> bool {
    forall|c: int|
        0 <= c < axis_count(a, sa, b, sb) ==> !#[trigger] candidate_separates(a, sa, b, sb, c)
}

/// Among the candidates before `upto`, candidate `c` is an axis of least
/// penetration depth, and the earliest such.
pub open spec fn is_shallowest(
    a: Seq<Vec3>,
    sa: int,
    b: Seq<Vec3>,
    sb: int,
    upto: int,
    c: int,
) -> bool {
    &&& 0 <= c < upto
    &&& candidate_axis(a, sa, b, sb, c) is Some
    &&& forall|d: int|
        0 <= d < upto && (#[trigger] candidate_axis(a, sa, b, sb, d)) is Some ==> candidate_depth(
            a,
            sa,
            b,
            sb,
            c,
        ) <= candidate_depth(a, sa, b, sb, d)
    &&& forall|d: int|
        0 <= d < c && (#[trigger] candidate_axis(a, sa, b, sb, d)) is Some ==> candidate_depth(
            a,
            sa,
            b,
            sb,
            d,
        ) > candidate_depth(a, sa, b, sb, c)
}

/// Candidate `c` is the contact axis: the earliest axis of least penetration
/// depth among all candidates.
pub open spec fn is_contact_axis(a: Seq<Vec3>, sa: int, b: Seq<Vec3>, sb: int, c: int) -> bool {
    is_shallowest(a, sa, b, sb, axis_count(a, sa, b, sb), c)
}

/// The contact normal of two overlapping shapes: the earliest tested axis of
/// least penetration depth, or the zero vector where no triangle of either
/// shape gives an axis.
pub open spec fn contact_normal(a: Seq<Vec3>, sa: int, b: Seq<Vec3>, sb: int) -> Vec3 {
    if exists|c: int| is_contact_axis(a, sa, b, sb, c) {
        candidate_axis(a, sa, b, sb, choose|c: int| is_contact_axis(a, sa, b, sb, c)).unwrap()
    } else {
        zero3()
    }
}

/// There is at most one contact axis.
pub proof fn lemma_contact_axis_unique(
    a: Seq<Vec3>,
    sa: int,
    b: Seq<Vec3>,
    sb: int,
    c1: int,
    c2: int,
)
    requires
        is_contact_axis(a, sa, b, sb, c1),
        is_contact_axis(a, sa, b, sb, c2),
    ensures
        c1 == c2,
{
}

/// Collision is commutative in space too: swapping the two shapes cannot
/// change the answer of the test. (The contact normal may change, since
/// the axes are then tested in another order.)
pub proof fn lemma_collision_3d_symmetric(a: Seq<Vec3>, sa: int, b: Seq<Vec3>, sb: int)
    ensures
        overlap_3d(a, sa, b, sb) == overlap_3d(b, sb, a, sa),
{
    lemma_overlap_3d_swapped(a, sa, b, sb);
    lemma_overlap_3d_swapped(b, sb, a, sa);
}

/// One direction of the symmetry of the spatial test.
proof fn lemma_overlap_3d_swapped(a: Seq<Vec3>, sa: int, b: Seq<Vec3>, sb: int)
    ensures
        overlap_3d(a, sa, b, sb) ==> overlap_3d(b, sb, a, sa),
{
    let na = triangle_count(a.len() as int, sa);
    let nb = triangle_count(b.len() as int, sb);
    assert(na >= 0 && nb >= 0) by {
        if a.len() >= 3 && sa > 0 {
            assert((a.len() - 3) / sa >= 0) by (nonlinear_arith)
                requires
                    a.len() - 3 >= 0,
                    sa > 0,
            ;
        }
        if b.len() >= 3 && sb > 0 {
            assert((b.len() - 3) / sb >= 0) by (nonlinear_arith)
                requires
                    b.len() - 3 >= 0,
                    sb > 0,
            ;
        }
    }
    if overlap_3d(a, sa, b, sb) {
        assert forall|c: int| 0 <= c < axis_count(b, sb, a, sa) implies !#[trigger] candidate_separates(
            b,
            sb,
            a,
            sa,
            c,
        ) by {
            let d = if c < nb {
                c + na
            } else {
                c - nb
            };
            assert(candidate_axis(b, sb, a, sa, c) == candidate_axis(a, sa, b, sb, d));
            assert(!candidate_separates(a, sa, b, sb, d));
        }
    }
}

/// Two spatial shapes with a vertex in common collide.
pub proof fn lemma_shared_vertex_collides_3d(
    a: Seq<Vec3>,
    sa: int,
    b: Seq<Vec3>,
    sb: int,
    i: int,
    j: int,
)
    requires
        0 <= i < a.len(),
        0 <= j < b.len(),
        a[i] == b[j],
    ensures
        overlap_3d(a, sa, b, sb),
{
    assert forall|axis: Vec3| !separated_3d(a, b, axis) by {
        let pa = projections_3d(a, axis);
        let pb = projections_3d(b, axis);
        lemma_lowest(pa);
        lemma_highest(pa);
        lemma_lowest(pb);
        lemma_highest(pb);
        assert(pa[i] == pb[j]);
    }
}

/// Projects every vertex onto `axis` and returns the least and the greatest
/// projection; `(EMPTY_LOW, EMPTY_HIGH)` for no vertices.
pub fn get_projected_min_max_3d(vertices: &[Vec3], axis: &Vec3) -> (r: (i128, i128))
    ensures
        r.0 == lowest(projections_3d(vertices@, *axis)),
        r.1 == highest(projections_3d(vertices@, *axis)),
        vertices@.len() > 0 ==> -projection_bound() <= r.0 <= r.1 <= projection_bound(),
{
    let mut min: i128 = EMPTY_LOW;
    let mut max: i128 = EMPTY_HIGH;
    let ghost all = projections_3d(vertices@, *axis);
    for idx in 0..vertices.len()
        invariant
            all == projections_3d(vertices@, *axis),
            min == lowest(all.take(idx as int)),
            max == highest(all.take(idx as int)),
            idx > 0 ==> -projection_bound() <= min <= max <= projection_bound(),
    {
        let vertex = vertices[idx];
        proof {
            lemma_product_bound(vertex.x as int, axis.x as int, 0x8000_0000, 0x8000_0000);
            lemma_product_bound(vertex.y as int, axis.y as int, 0x8000_0000, 0x8000_0000);
            lemma_product_bound(vertex.z as int, axis.z as int, 0x8000_0000, 0x8000_0000);
            assert(all.take(idx + 1).drop_last() =~= all.take(idx as int));
            assert(all.take(idx + 1).last() == dot3(vertex, *axis));
        }
        let proj: i128 = (vertex.x as i128) * (axis.x as i128) + (vertex.y as i128) * (
        axis.y as i128) + (vertex.z as i128) * (axis.z as i128);
        if proj < min {
            min = proj;
        }
        if proj > max {
            max = proj;
        }
    }
    proof {
        assert(all.take(vertices@.len() as int) =~= all);
    }
    (min, max)
}

/// Triangle `k` of a soup starts inside the vertex list and has its three
/// vertices there.
proof fn lemma_triangle_start(len: int, stride: int, k: int)
    requires
        stride > 0,
        0 <= k < triangle_count(len, stride),
    ensures
        0 <= k * stride,
        k * stride + 2 < len,
{
    let q = (len - 3) / stride;
    assert(q * stride <= len - 3) by (nonlinear_arith)
        requires
            q == (len - 3) / stride,
            stride > 0,
            len >= 3,
    ;
    assert(0 <= k * stride <= q * stride) by (nonlinear_arith)
        requires
            0 <= k <= q,
            stride > 0,
    ;
}

/// Number of triangles in `len` vertices at the given stride.
fn count_triangles(len: usize, stride: usize) -> (n: usize)
    requires
        stride > 0,
    ensures
        n == triangle_count(len as int, stride as int),
{
    if len < 3 {
        0
    } else {
        let q = (len - 3) / stride;
        assert(q <= len - 3) by (nonlinear_arith)
            requires
                q == (len - 3) as int / stride as int,
                stride > 0,
                len >= 3,
        ;
        q + 1
    }
}

/// The unit normal of triangle `k` of a soup, `None` for a degenerate one.
fn triangle_axis(verts: &[Vec3], stride: usize, k: usize) -> (axis: Option<Vec3>)
    requires
        stride > 0,
        k < triangle_count(verts@.len() as int, stride as int),
    ensures
        axis == face_axis(verts@, stride as int, k as int),
{
    let len = verts.len();
    proof {
        lemma_triangle_start(len as int, stride as int, k as int);
    }
    let i = k * stride;
    normalize(cross(verts[i], verts[i + 1], verts[i + 2]))
}

/// Projects both shapes onto `axis`: `None` where the axis separates them,
/// else the penetration depth along it.
fn depth_along(v1: &[Vec3], v2: &[Vec3], axis: &Vec3) -> (depth: Option<i128>)
    ensures
        depth is None <==> separated_3d(v1@, v2@, *axis),
        depth matches Some(d) ==> d == penetration(v1@, v2@, *axis) && d < i128::MAX,
{
    let (min_1, max_1) = get_projected_min_max_3d(v1, axis);
    let (min_2, max_2) = get_projected_min_max_3d(v2, axis);
    if min_1 > max_2 || min_2 > max_1 {
        return None;
    }
    let from_below = max_2 - min_1;
    let from_above = max_1 - min_2;
    if from_below < from_above {
        Some(from_below)
    } else {
        Some(from_above)
    }
}

/// The running state of the search for the contact axis after the
/// candidates before `upto`: `best` is the shallowest of them, with `depth`
/// and `normal` its depth and axis, or `best` is negative and none of them
/// was an axis.
spec fn search_state(
    a: Seq<Vec3>,
    sa: int,
    b: Seq<Vec3>,
    sb: int,
    upto: int,
    best: int,
    depth: int,
    normal: Vec3,
) -> bool {
    if best < 0 {
        &&& depth == i128::MAX
        &&& normal == zero3()
        &&& forall|d: int| 0 <= d < upto ==> (#[trigger] candidate_axis(a, sa, b, sb, d)) is None
    } else {
        &&& is_shallowest(a, sa, b, sb, upto, best)
        &&& candidate_axis(a, sa, b, sb, best) == Some(normal)
        &&& depth == candidate_depth(a, sa, b, sb, best)
    }
}

/// A finished search names the contact normal.
proof fn lemma_search_finished(
    a: Seq<Vec3>,
    sa: int,
    b: Seq<Vec3>,
    sb: int,
    best: int,
    depth: int,
    normal: Vec3,
)
    requires
        search_state(a, sa, b, sb, axis_count(a, sa, b, sb), best, depth, normal),
    ensures
        normal == contact_normal(a, sa, b, sb),
{
    if best < 0 {
        assert forall|c: int| !is_contact_axis(a, sa, b, sb, c) by {
            if is_contact_axis(a, sa, b, sb, c) {
                assert(candidate_axis(a, sa, b, sb, c) is None);
            }
        }
    } else {
        assert(is_contact_axis(a, sa, b, sb, best));
        let c = choose|c: int| is_contact_axis(a, sa, b, sb, c);
        lemma_contact_axis_unique(a, sa, b, sb, best, c);
    }
}

/// Separating-axis test for two triangle soups, each read as one triangle
/// every `stride` vertices. Returns `(false, None)` as soon as the unit normal
/// of a triangle of either shape separates the two, and else `true` with the
/// contact normal: the earliest tested normal of least penetration depth.
/// Degenerate triangles give no axis and are passed over, and so are
/// vertices at the end that are too few for a triangle. Only face normals
/// are tried: see the note at the head of this module.
pub fn test_collision_3d(v1: &[Vec3], stride1: usize, v2: &[Vec3], stride2: usize) -> (r: (
    bool,
    Option<Vec3>,
))
    requires
        stride1 > 0,
        stride2 > 0,
    ensures
        r.0 == overlap_3d(v1@, stride1 as int, v2@, stride2 as int),
        r.1 == if r.0 {
            Some(contact_normal(v1@, stride1 as int, v2@, stride2 as int))
        } else {
            None
        },
{
    let mut normal_output = Vec3 { x: 0, y: 0, z: 0 };
    let mut depth: i128 = i128::MAX;
    let ghost mut best: int = -1;
    let ghost sa = stride1 as int;
    let ghost sb = stride2 as int;
    let count1 = count_triangles(v1.len(), stride1);
    let count2 = count_triangles(v2.len(), stride2);
    for k in 0..count1
        invariant
            stride1 > 0,
            sa == stride1,
            sb == stride2,
            count1 == triangle_count(v1@.len() as int, sa),
            count2 == triangle_count(v2@.len() as int, sb),
            forall|c: int| 0 <= c < k ==> !#[trigger] candidate_separates(v1@, sa, v2@, sb, c),
            search_state(v1@, sa, v2@, sb, k as int, best, depth as int, normal_output),
    {
        assert(candidate_axis(v1@, sa, v2@, sb, k as int) == face_axis(v1@, sa, k as int));
        match triangle_axis(v1, stride1, k) {
            None => {},
            Some(normal) => {
                match depth_along(v1, v2, &normal) {
                    None => {
                        assert(candidate_separates(v1@, sa, v2@, sb, k as int));
                        return (false, None);
                    },
                    Some(axis_depth) => {
                        if depth > axis_depth {
                            depth = axis_depth;
                            normal_output = normal;
                            proof {
                                best = k as int;
                            }
                        }
                    },
                }
            },
        }
    }
    for k in 0..count2
        invariant
            stride2 > 0,
            sa == stride1,
            sb == stride2,
            count1 == triangle_count(v1@.len() as int, sa),
            count2 == triangle_count(v2@.len() as int, sb),
            forall|c: int|
                0 <= c < count1 + k ==> !#[trigger] candidate_separates(v1@, sa, v2@, sb, c),
            search_state(v1@, sa, v2@, sb, count1 + k, best, depth as int, normal_output),
    {
        assert(candidate_axis(v1@, sa, v2@, sb, count1 + k) == face_axis(v2@, sb, k as int));
        match triangle_axis(v2, stride2, k) {
            None => {},
            Some(normal) => {
                match depth_along(v1, v2, &normal) {
                    None => {
                        assert(candidate_separates(v1@, sa, v2@, sb, count1 + k));
                        return (false, None);
                    },
                    Some(axis_depth) => {
                        if depth > axis_depth {
                            depth = axis_depth;
                            normal_output = normal;
                            proof {
                                best = count1 + k;
                            }
                        }
                    },
                }
            },
        }
    }
    proof {
        lemma_search_finished(v1@, sa, v2@, sb, best, depth as int, normal_output);
    }
    (true, Some(normal_output))
}

} // verus!
