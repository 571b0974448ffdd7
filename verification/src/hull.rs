//! What a separating axis proves. The points of the convex hull of a shape
//! are the weighted means of its vertices. If the projections of two shapes
//! onto some axis are apart, no weighted mean of the one is a weighted mean
//! of the other: the two hulls have no point in common. So when an overlap
//! test answers that two shapes do not collide, they do not.

use vstd::prelude::*;
use crate::collision::{
    axis_count, candidate_axis, candidate_separates, highest, intervals_apart, lemma_highest,
    lemma_lowest, lowest, overlap_2d, overlap_3d, projections_2d, projections_3d, separated_2d,
    separated_3d, edge_axis,
};
use crate::vector::{dot2, dot3, Axis2, Vec2, Vec3};

verus! {

/// The sum of the weights `w`.
pub open spec fn total(w: Seq<nat>) -> int
    decreases w.len(),
{
    if w.len() == 0 {
        0
    } else {
        total(w.drop_last()) + w.last()
    }
}

/// The sum of the `values`, each taken as often as its weight in `w` says.
pub open spec fn weighted_sum(values: Seq<int>, w: Seq<nat>) -> int
    recommends
        values.len() == w.len(),
    decreases values.len(),
{
    if values.len() == 0 {
        0
    } else {
        weighted_sum(values.drop_last(), w.drop_last()) + w.last() * values.last()
    }
}

/// The x coordinates of a planar shape.
pub open spec fn xs_2d(verts: Seq<Vec2>) -> Seq<int> {
    Seq::new(verts.len(), |i: int| verts[i].x as int)
}

/// The y coordinates of a planar shape.
pub open spec fn ys_2d(verts: Seq<Vec2>) -> Seq<int> {
    Seq::new(verts.len(), |i: int| verts[i].y as int)
}

/// The x coordinates of a spatial shape.
pub open spec fn xs_3d(verts: Seq<Vec3>) -> Seq<int> {
    Seq::new(verts.len(), |i: int| verts[i].x as int)
}

/// The y coordinates of a spatial shape.
pub open spec fn ys_3d(verts: Seq<Vec3>) -> Seq<int> {
    Seq::new(verts.len(), |i: int| verts[i].y as int)
}

/// The z coordinates of a spatial shape.
pub open spec fn zs_3d(verts: Seq<Vec3>) -> Seq<int> {
    Seq::new(verts.len(), |i: int| verts[i].z as int)
}

/// Whether the weighted mean of the `a_values` under the weights `wa` is the
/// weighted mean of the `b_values` under `wb`, stated without division.
pub open spec fn same_mean(a_values: Seq<int>, wa: Seq<nat>, b_values: Seq<int>, wb: Seq<nat>) -> bool {
    total(wb) * weighted_sum(a_values, wa) == total(wa) * weighted_sum(b_values, wb)
}

/// Whether `wa` and `wb` weigh the vertices of `a` and of `b`: one weight
/// for each vertex, not all of them zero.
pub open spec fn weigh(a_len: nat, wa: Seq<nat>, b_len: nat, wb: Seq<nat>) -> bool {
    wa.len() == a_len && wb.len() == b_len && total(wa) > 0 && total(wb) > 0
}

/// Whether the planar shapes `a` and `b` meet in the point that is the
/// weighted mean of `a` under `wa` and of `b` under `wb`.
pub open spec fn meet_2d(a: Seq<Vec2>, wa: Seq<nat>, b: Seq<Vec2>, wb: Seq<nat>) -> bool {
    &&& weigh(a.len(), wa, b.len(), wb)
    &&& same_mean(xs_2d(a), wa, xs_2d(b), wb)
    &&& same_mean(ys_2d(a), wa, ys_2d(b), wb)
}

/// Whether the spatial shapes `a` and `b` meet in the point that is the
/// weighted mean of `a` under `wa` and of `b` under `wb`.
pub open spec fn meet_3d(a: Seq<Vec3>, wa: Seq<nat>, b: Seq<Vec3>, wb: Seq<nat>) -> bool {
    &&& weigh(a.len(), wa, b.len(), wb)
    &&& same_mean(xs_3d(a), wa, xs_3d(b), wb)
    &&& same_mean(ys_3d(a), wa, ys_3d(b), wb)
    &&& same_mean(zs_3d(a), wa, zs_3d(b), wb)
}

/// A weighted sum lies between the total weight times the least value and
/// the total weight times the greatest.
pub proof fn lemma_weighted_sum_bounds(values: Seq<int>, w: Seq<nat>)
    requires
        values.len() == w.len(),
    ensures
        total(w) >= 0,
        values.len() > 0 ==> total(w) * lowest(values) <= weighted_sum(values, w) <= total(w)
            * highest(values),
    decreases values.len(),
{
    if values.len() > 0 {
        let v = values.drop_last();
        let u = w.drop_last();
        lemma_weighted_sum_bounds(v, u);
        lemma_lowest(values);
        lemma_highest(values);
        let lo = lowest(values);
        let hi = highest(values);
        let last = values.last();
        let wl = w.last() as int;
        assert(lo <= values[values.len() - 1] <= hi);
        assert(wl * lo <= wl * last <= wl * hi) by (nonlinear_arith)
            requires
                wl >= 0,
                lo <= last <= hi,
        ;
        if v.len() > 0 {
            lemma_lowest(v);
            lemma_highest(v);
            assert(lo <= lowest(v) && highest(v) <= hi);
            let t = total(u);
            let s = weighted_sum(v, u);
            assert(t * lo <= t * lowest(v) && t * highest(v) <= t * hi) by (nonlinear_arith)
                requires
                    t >= 0,
                    lo <= lowest(v),
                    highest(v) <= hi,
            ;
            assert((t + wl) * lo == t * lo + wl * lo && (t + wl) * hi == t * hi + wl * hi)
                by (nonlinear_arith);
        } else {
            assert(total(u) == 0);
            assert(weighted_sum(v, u) == 0);
            assert((0 + wl) * lo == wl * lo && (0 + wl) * hi == wl * hi) by (nonlinear_arith);
        }
    }
}

/// Two sequences of values whose ranges are apart have no weighted mean in
/// common.
pub proof fn lemma_apart_ranges_share_no_mean(
    a_values: Seq<int>,
    wa: Seq<nat>,
    b_values: Seq<int>,
    wb: Seq<nat>,
)
    requires
        weigh(a_values.len(), wa, b_values.len(), wb),
        intervals_apart(
            lowest(a_values),
            highest(a_values),
            lowest(b_values),
            highest(b_values),
        ),
    ensures
        !same_mean(a_values, wa, b_values, wb),
{
    lemma_weighted_sum_bounds(a_values, wa);
    lemma_weighted_sum_bounds(b_values, wb);
    assert(a_values.len() > 0 && b_values.len() > 0) by {
        if a_values.len() == 0 {
            assert(total(wa) == 0);
        }
        if b_values.len() == 0 {
            assert(total(wb) == 0);
        }
    }
    let ta = total(wa);
    let tb = total(wb);
    let sa = weighted_sum(a_values, wa);
    let sb = weighted_sum(b_values, wb);
    let la = lowest(a_values);
    let ha = highest(a_values);
    let lb = lowest(b_values);
    let hb = highest(b_values);
    if la > hb {
        assert(tb * sa > ta * sb) by (nonlinear_arith)
            requires
                ta > 0,
                tb > 0,
                ta * la <= sa,
                sb <= tb * hb,
                la > hb,
        ;
    } else {
        assert(ta * sb > tb * sa) by (nonlinear_arith)
            requires
                ta > 0,
                tb > 0,
                tb * lb <= sb,
                sa <= ta * ha,
                lb > ha,
        ;
    }
}

/// Adding `k` times a coordinate `c` to a sum, then multiplying by an axis
/// component `n`.
proof fn lemma_accumulate(s: int, k: int, c: int, n: int)
    by (nonlinear_arith)
    ensures
        (s + k * c) * n == s * n + k * (c * n),
{
}

/// A factor spreads over a sum of three.
proof fn lemma_spread(k: int, x: int, y: int, z: int)
    by (nonlinear_arith)
    ensures
        k * (x + y + z) == k * x + k * y + k * z,
{
}

/// Equal cross products stay equal when both sides are multiplied by `n`.
proof fn lemma_scale_both(tb: int, a: int, ta: int, b: int, n: int)
    by (nonlinear_arith)
    requires
        tb * a == ta * b,
    ensures
        tb * (a * n) == ta * (b * n),
{
}

/// The weighted sum of the projections of a planar shape is the projection
/// of the weighted sums of its coordinates.
pub proof fn lemma_projected_sum_2d(verts: Seq<Vec2>, w: Seq<nat>, axis: Axis2)
    requires
        verts.len() == w.len(),
    ensures
        weighted_sum(projections_2d(verts, axis), w) == weighted_sum(xs_2d(verts), w) * axis.x
            + weighted_sum(ys_2d(verts), w) * axis.y,
    decreases verts.len(),
{
    if verts.len() > 0 {
        let rest = verts.drop_last();
        lemma_projected_sum_2d(rest, w.drop_last(), axis);
        assert(projections_2d(verts, axis).drop_last() =~= projections_2d(rest, axis));
        assert(xs_2d(verts).drop_last() =~= xs_2d(rest));
        assert(ys_2d(verts).drop_last() =~= ys_2d(rest));
        let v = verts.last();
        let k = w.last() as int;
        let sx = weighted_sum(xs_2d(rest), w.drop_last());
        let sy = weighted_sum(ys_2d(rest), w.drop_last());
        assert(projections_2d(verts, axis).last() == dot2(v, axis));
        assert(xs_2d(verts).last() == v.x && ys_2d(verts).last() == v.y);
        lemma_accumulate(sx, k, v.x as int, axis.x as int);
        lemma_accumulate(sy, k, v.y as int, axis.y as int);
        lemma_spread(k, v.x * axis.x, v.y * axis.y, 0);
    }
}

/// The weighted sum of the projections of a spatial shape is the projection
/// of the weighted sums of its coordinates.
pub proof fn lemma_projected_sum_3d(verts: Seq<Vec3>, w: Seq<nat>, axis: Vec3)
    requires
        verts.len() == w.len(),
    ensures
        weighted_sum(projections_3d(verts, axis), w) == weighted_sum(xs_3d(verts), w) * axis.x
            + weighted_sum(ys_3d(verts), w) * axis.y + weighted_sum(zs_3d(verts), w) * axis.z,
    decreases verts.len(),
{
    if verts.len() > 0 {
        let rest = verts.drop_last();
        lemma_projected_sum_3d(rest, w.drop_last(), axis);
        assert(projections_3d(verts, axis).drop_last() =~= projections_3d(rest, axis));
        assert(xs_3d(verts).drop_last() =~= xs_3d(rest));
        assert(ys_3d(verts).drop_last() =~= ys_3d(rest));
        assert(zs_3d(verts).drop_last() =~= zs_3d(rest));
        let v = verts.last();
        let k = w.last() as int;
        let sx = weighted_sum(xs_3d(rest), w.drop_last());
        let sy = weighted_sum(ys_3d(rest), w.drop_last());
        let sz = weighted_sum(zs_3d(rest), w.drop_last());
        assert(projections_3d(verts, axis).last() == dot3(v, axis));
        assert(xs_3d(verts).last() == v.x && ys_3d(verts).last() == v.y && zs_3d(verts).last()
            == v.z);
        lemma_accumulate(sx, k, v.x as int, axis.x as int);
        lemma_accumulate(sy, k, v.y as int, axis.y as int);
        lemma_accumulate(sz, k, v.z as int, axis.z as int);
        lemma_spread(k, v.x * axis.x, v.y * axis.y, v.z * axis.z);
    }
}

/// Planar shapes that an axis separates have no point in common.
pub proof fn lemma_separated_shapes_do_not_meet_2d(
    a: Seq<Vec2>,
    wa: Seq<nat>,
    b: Seq<Vec2>,
    wb: Seq<nat>,
    axis: Axis2,
)
    requires
        separated_2d(a, b, axis),
    ensures
        !meet_2d(a, wa, b, wb),
{
    if meet_2d(a, wa, b, wb) {
        let pa = projections_2d(a, axis);
        let pb = projections_2d(b, axis);
        lemma_apart_ranges_share_no_mean(pa, wa, pb, wb);
        lemma_projected_sum_2d(a, wa, axis);
        lemma_projected_sum_2d(b, wb, axis);
        let ta = total(wa);
        let tb = total(wb);
        let ax = weighted_sum(xs_2d(a), wa);
        let ay = weighted_sum(ys_2d(a), wa);
        let bx = weighted_sum(xs_2d(b), wb);
        let by = weighted_sum(ys_2d(b), wb);
        lemma_scale_both(tb, ax, ta, bx, axis.x as int);
        lemma_scale_both(tb, ay, ta, by, axis.y as int);
        lemma_spread(tb, ax * axis.x, ay * axis.y, 0);
        lemma_spread(ta, bx * axis.x, by * axis.y, 0);
    }
}

/// Spatial shapes that an axis separates have no point in common.
pub proof fn lemma_separated_shapes_do_not_meet_3d(
    a: Seq<Vec3>,
    wa: Seq<nat>,
    b: Seq<Vec3>,
    wb: Seq<nat>,
    axis: Vec3,
)
    requires
        separated_3d(a, b, axis),
    ensures
        !meet_3d(a, wa, b, wb),
{
    if meet_3d(a, wa, b, wb) {
        let pa = projections_3d(a, axis);
        let pb = projections_3d(b, axis);
        lemma_apart_ranges_share_no_mean(pa, wa, pb, wb);
        lemma_projected_sum_3d(a, wa, axis);
        lemma_projected_sum_3d(b, wb, axis);
        let ta = total(wa);
        let tb = total(wb);
        let ax = weighted_sum(xs_3d(a), wa);
        let ay = weighted_sum(ys_3d(a), wa);
        let az = weighted_sum(zs_3d(a), wa);
        let bx = weighted_sum(xs_3d(b), wb);
        let by = weighted_sum(ys_3d(b), wb);
        let bz = weighted_sum(zs_3d(b), wb);
        lemma_scale_both(tb, ax, ta, bx, axis.x as int);
        lemma_scale_both(tb, ay, ta, by, axis.y as int);
        lemma_scale_both(tb, az, ta, bz, axis.z as int);
        lemma_spread(tb, ax * axis.x, ay * axis.y, az * axis.z);
        lemma_spread(ta, bx * axis.x, by * axis.y, bz * axis.z);
    }
}

/// The planar test is sound when it answers that two shapes do not collide:
/// their convex hulls have no point in common.
pub proof fn lemma_no_collision_is_sound_2d(a: Seq<Vec2>, wa: Seq<nat>, b: Seq<Vec2>, wb: Seq<nat>)
    requires
        !overlap_2d(a, b),
    ensures
        !meet_2d(a, wa, b, wb),
{
    if exists|i: int| 0 <= i < a.len() && separated_2d(a, b, edge_axis(a, i)) {
        let i = choose|i: int| 0 <= i < a.len() && separated_2d(a, b, edge_axis(a, i));
        lemma_separated_shapes_do_not_meet_2d(a, wa, b, wb, edge_axis(a, i));
    } else {
        let i = choose|i: int| 0 <= i < b.len() && separated_2d(a, b, edge_axis(b, i));
        lemma_separated_shapes_do_not_meet_2d(a, wa, b, wb, edge_axis(b, i));
    }
}

/// The spatial test is sound when it answers that two shapes do not
/// collide: their convex hulls have no point in common.
pub proof fn lemma_no_collision_is_sound_3d(
    a: Seq<Vec3>,
    sa: int,
    wa: Seq<nat>,
    b: Seq<Vec3>,
    sb: int,
    wb: Seq<nat>,
)
    requires
        !overlap_3d(a, sa, b, sb),
    ensures
        !meet_3d(a, wa, b, wb),
{
    let c = choose|c: int|
        0 <= c < axis_count(a, sa, b, sb) && candidate_separates(a, sa, b, sb, c);
    lemma_separated_shapes_do_not_meet_3d(
        a,
        wa,
        b,
        wb,
        candidate_axis(a, sa, b, sb, c).unwrap(),
    );
}

} // verus!
