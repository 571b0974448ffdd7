//! The collision test on two cubes in closed form. The faces of a cube lie
//! along the coordinate axes, so the separating-axis test on two cubes comes
//! down to comparing their centres coordinate by coordinate.

use vstd::prelude::*;
use crate::body::{corner, cube_triangles, in_world, HALF_EDGE};
use crate::collision::{
    all_in_i128, axis_count, candidate_axis, candidate_depth, candidate_separates, face_axis,
    highest, is_contact_axis, lemma_contact_axis_unique, lemma_highest_is, lemma_lowest_is,
    lowest, overlap_3d, projections_3d, triangle_count,
};
use crate::game::{cubes_contact_normal, cubes_overlap};
use crate::fixed::{floor_sqrt, lemma_floor_sqrt_of_square, trunc_div, SCALE};
use crate::vector::{
    axis_unit, coordinate, dot3, face_normal, reaches, rescaled, rescaled_len2, unit_normal, Axis,
    Normal3, Vec3, LARGE_NORMAL, SMALL_FACTOR, SMALL_NORMAL,
};

verus! {

/// Edge of a cube.
pub const EDGE: i32 = 1000;

/// The distance between two coordinates.
pub open spec fn gap(a: int, b: int) -> int {
    if a >= b {
        a - b
    } else {
        b - a
    }
}

/// Whether the cubes centred at `p` and `q` touch or overlap: their centres
/// are no further apart than an edge along any coordinate.
pub open spec fn boxes_touch(p: Vec3, q: Vec3) -> bool {
    &&& gap(p.x as int, q.x as int) <= EDGE
    &&& gap(p.y as int, q.y as int) <= EDGE
    &&& gap(p.z as int, q.z as int) <= EDGE
}

/// The contact normal of two touching cubes: along the coordinate in which
/// their centres are furthest apart, x before y before z among equals; it
/// points down the x or y axis, or up the z axis.
pub open spec fn box_contact_normal(p: Vec3, q: Vec3) -> Vec3 {
    let gx = gap(p.x as int, q.x as int);
    let gy = gap(p.y as int, q.y as int);
    let gz = gap(p.z as int, q.z as int);
    if gx >= gy && gx >= gz {
        axis_unit(Axis::X, -1)
    } else if gy >= gz {
        axis_unit(Axis::Y, -1)
    } else {
        axis_unit(Axis::Z, 1)
    }
}

/// The axis along which triangle `k` of a cube's surface faces.
pub open spec fn face_coordinate(k: int) -> Axis {
    if k == 0 || k == 1 || k == 8 || k == 9 {
        Axis::X
    } else if k == 2 || k == 3 || k == 6 || k == 7 {
        Axis::Y
    } else {
        Axis::Z
    }
}

/// The raw normal of a face of a cube: `EDGE * EDGE` long, along `axis`
/// with the sign `sign`.
pub open spec fn axis_normal(axis: Axis, sign: int) -> Normal3 {
    Normal3 {
        x: if axis == Axis::X {
            (sign * 1_000_000) as i128
        } else {
            0
        },
        y: if axis == Axis::Y {
            (sign * 1_000_000) as i128
        } else {
            0
        },
        z: if axis == Axis::Z {
            (sign * 1_000_000) as i128
        } else {
            0
        },
    }
}

/// The sign of the normal of triangle `k` of a cube's surface.
pub open spec fn face_sign(k: int) -> int {
    if k == 4 || k == 5 || k == 8 || k == 9 {
        1
    } else {
        -1
    }
}

/// A vector of length `EDGE * EDGE` along a coordinate axis has the unit
/// vector of that axis as its direction.
pub proof fn lemma_unit_normal_of_axis(axis: Axis, sign: int)
    requires
        sign == 1 || sign == -1,
    ensures
        unit_normal(axis_normal(axis, sign)) == Some(axis_unit(axis, sign)),
{
    let n = axis_normal(axis, sign);
    let c: int = sign * 1_000_000;
    assert(c == 1_000_000 || c == -1_000_000);
    assert(!reaches(n, LARGE_NORMAL as int) && !reaches(n, SMALL_NORMAL as int));
    let len: int = 1_000_000 * SMALL_FACTOR;
    let px = rescaled(n.x as int, n);
    let py = rescaled(n.y as int, n);
    let pz = rescaled(n.z as int, n);
    let pc: int = c * SMALL_FACTOR;
    assert(pc == len || pc == -len);
    assert(pc * pc == len * len) by (nonlinear_arith)
        requires
            pc == len || pc == -len,
    ;
    assert(rescaled_len2(n) == len * len) by {
        assert(rescaled_len2(n) == px * px + py * py + pz * pz);
        assert(0int * 0int == 0);
        if axis == Axis::X {
            assert(px == pc && py == 0 && pz == 0);
            assert(px * px == pc * pc);
            assert(py * py == 0);
            assert(pz * pz == 0);
        } else if axis == Axis::Y {
            assert(px == 0 && py == pc && pz == 0);
            assert(py * py == pc * pc);
        } else {
            assert(px == 0 && py == 0 && pz == pc);
            assert(pz * pz == pc * pc);
        }
    }
    lemma_floor_sqrt_of_square(len);
    assert(floor_sqrt(rescaled_len2(n)) == len);
    assert(pc * SCALE == sign * 1000 * len) by (nonlinear_arith)
        requires
            pc == sign * len,
            SCALE == 1000,
    ;
    assert(trunc_div(pc * SCALE, len) == sign * SCALE);
    assert(trunc_div(0 * SCALE, len) == 0);
}

/// The normal of a triangle whose two edges from its first vertex are
/// `(ux, uy, uz)` and `(vx, vy, vz)`.
proof fn lemma_face_normal_of_edges(
    a: Vec3,
    b: Vec3,
    c: Vec3,
    ux: int,
    uy: int,
    uz: int,
    vx: int,
    vy: int,
    vz: int,
)
    requires
        b.x - a.x == ux,
        b.y - a.y == uy,
        b.z - a.z == uz,
        c.x - a.x == vx,
        c.y - a.y == vy,
        c.z - a.z == vz,
    ensures
        face_normal(a, b, c) == (Normal3 {
            x: (uy * vz - uz * vy) as i128,
            y: (uz * vx - ux * vz) as i128,
            z: (ux * vy - uy * vx) as i128,
        }),
{
}

/// Every triangle of a cube's surface has a unit vector along a coordinate
/// axis as its unit normal.
pub proof fn lemma_cube_face_axis(p: Vec3, k: int)
    requires
        in_world(p),
        0 <= k < 12,
    ensures
        face_axis(cube_triangles(p), 3, k) == Some(
            axis_unit(face_coordinate(k), face_sign(k)),
        ),
{
    let t = cube_triangles(p);
    lemma_unit_normal_of_axis(face_coordinate(k), face_sign(k));
    if k == 0 {
        assert(t[0] == corner(p, 1, 1, 1) && t[1] == corner(p, 1, 1, -1) && t[2] == corner(p, 1, -1, 1));
        lemma_face_normal_of_edges(t[0], t[1], t[2], 0, 0, -1000, 0, -1000, 0);
    } else if k == 1 {
        assert(t[3] == corner(p, 1, -1, -1) && t[4] == corner(p, 1, -1, 1) && t[5] == corner(p, 1, 1, -1));
        lemma_face_normal_of_edges(t[3], t[4], t[5], 0, 0, 1000, 0, 1000, 0);
    } else if k == 2 {
        assert(t[6] == corner(p, 1, 1, 1) && t[7] == corner(p, -1, 1, 1) && t[8] == corner(p, 1, 1, -1));
        lemma_face_normal_of_edges(t[6], t[7], t[8], -1000, 0, 0, 0, 0, -1000);
    } else if k == 3 {
        assert(t[9] == corner(p, -1, 1, -1) && t[10] == corner(p, 1, 1, -1) && t[11] == corner(p, -1, 1, 1));
        lemma_face_normal_of_edges(t[9], t[10], t[11], 1000, 0, 0, 0, 0, 1000);
    } else if k == 4 {
        assert(t[12] == corner(p, 1, 1, 1) && t[13] == corner(p, -1, 1, 1) && t[14] == corner(p, 1, -1, 1));
        lemma_face_normal_of_edges(t[12], t[13], t[14], -1000, 0, 0, 0, -1000, 0);
    } else if k == 5 {
        assert(t[15] == corner(p, -1, -1, 1) && t[16] == corner(p, 1, -1, 1) && t[17] == corner(p, -1, 1, 1));
        lemma_face_normal_of_edges(t[15], t[16], t[17], 1000, 0, 0, 0, 1000, 0);
    } else if k == 6 {
        assert(t[18] == corner(p, 1, -1, 1) && t[19] == corner(p, -1, -1, 1) && t[20] == corner(p, 1, -1, -1));
        lemma_face_normal_of_edges(t[18], t[19], t[20], -1000, 0, 0, 0, 0, -1000);
    } else if k == 7 {
        assert(t[21] == corner(p, -1, -1, -1) && t[22] == corner(p, 1, -1, -1) && t[23] == corner(p, -1, -1, 1));
        lemma_face_normal_of_edges(t[21], t[22], t[23], 1000, 0, 0, 0, 0, 1000);
    } else if k == 8 {
        assert(t[24] == corner(p, -1, 1, -1) && t[25] == corner(p, -1, 1, 1) && t[26] == corner(p, -1, -1, -1));
        lemma_face_normal_of_edges(t[24], t[25], t[26], 0, 0, 1000, 0, -1000, 0);
    } else if k == 9 {
        assert(t[27] == corner(p, -1, -1, 1) && t[28] == corner(p, -1, -1, -1) && t[29] == corner(p, -1, 1, 1));
        lemma_face_normal_of_edges(t[27], t[28], t[29], 0, 0, -1000, 0, 1000, 0);
    } else if k == 10 {
        assert(t[30] == corner(p, -1, 1, -1) && t[31] == corner(p, 1, 1, -1) && t[32] == corner(p, -1, -1, -1));
        lemma_face_normal_of_edges(t[30], t[31], t[32], 1000, 0, 0, 0, -1000, 0);
    } else if k == 11 {
        assert(t[33] == corner(p, 1, -1, -1) && t[34] == corner(p, -1, -1, -1) && t[35] == corner(p, 1, 1, -1));
        lemma_face_normal_of_edges(t[33], t[34], t[35], -1000, 0, 0, 0, 1000, 0);
    }
}

/// Whether `v` is a corner of the cube centred at `p`.
pub open spec fn is_corner(p: Vec3, v: Vec3) -> bool {
    &&& v.x == p.x + HALF_EDGE || v.x == p.x - HALF_EDGE
    &&& v.y == p.y + HALF_EDGE || v.y == p.y - HALF_EDGE
    &&& v.z == p.z + HALF_EDGE || v.z == p.z - HALF_EDGE
}

/// The surface of a cube has thirty-six vertices, each a corner of the cube,
/// and each of the eight corners is among them.
pub proof fn lemma_cube_vertices(p: Vec3)
    requires
        in_world(p),
    ensures
        cube_triangles(p).len() == 36,
        forall|i: int| 0 <= i < 36 ==> is_corner(p, #[trigger] cube_triangles(p)[i]),
        forall|v: Vec3| is_corner(p, v) ==> cube_triangles(p).contains(v),
{
    let t = cube_triangles(p);
    assert forall|v: Vec3| is_corner(p, v) implies t.contains(v) by {
        assert(t[0] == corner(p, 1, 1, 1));
        assert(t[1] == corner(p, 1, 1, -1));
        assert(t[2] == corner(p, 1, -1, 1));
        assert(t[3] == corner(p, 1, -1, -1));
        assert(t[7] == corner(p, -1, 1, 1));
        assert(t[9] == corner(p, -1, 1, -1));
        assert(t[15] == corner(p, -1, -1, 1));
        assert(t[21] == corner(p, -1, -1, -1));
    }
    assert forall|i: int| 0 <= i < 36 implies is_corner(p, #[trigger] t[i]) by {
        if i == 0 {
            assert(t[0] == corner(p, 1, 1, 1));
        } else if i == 1 {
            assert(t[1] == corner(p, 1, 1, -1));
        } else if i == 2 {
            assert(t[2] == corner(p, 1, -1, 1));
        } else if i == 3 {
            assert(t[3] == corner(p, 1, -1, -1));
        } else if i == 4 {
            assert(t[4] == corner(p, 1, -1, 1));
        } else if i == 5 {
            assert(t[5] == corner(p, 1, 1, -1));
        } else if i == 6 {
            assert(t[6] == corner(p, 1, 1, 1));
        } else if i == 7 {
            assert(t[7] == corner(p, -1, 1, 1));
        } else if i == 8 {
            assert(t[8] == corner(p, 1, 1, -1));
        } else if i == 9 {
            assert(t[9] == corner(p, -1, 1, -1));
        } else if i == 10 {
            assert(t[10] == corner(p, 1, 1, -1));
        } else if i == 11 {
            assert(t[11] == corner(p, -1, 1, 1));
        } else if i == 12 {
            assert(t[12] == corner(p, 1, 1, 1));
        } else if i == 13 {
            assert(t[13] == corner(p, -1, 1, 1));
        } else if i == 14 {
            assert(t[14] == corner(p, 1, -1, 1));
        } else if i == 15 {
            assert(t[15] == corner(p, -1, -1, 1));
        } else if i == 16 {
            assert(t[16] == corner(p, 1, -1, 1));
        } else if i == 17 {
            assert(t[17] == corner(p, -1, 1, 1));
        } else if i == 18 {
            assert(t[18] == corner(p, 1, -1, 1));
        } else if i == 19 {
            assert(t[19] == corner(p, -1, -1, 1));
        } else if i == 20 {
            assert(t[20] == corner(p, 1, -1, -1));
        } else if i == 21 {
            assert(t[21] == corner(p, -1, -1, -1));
        } else if i == 22 {
            assert(t[22] == corner(p, 1, -1, -1));
        } else if i == 23 {
            assert(t[23] == corner(p, -1, -1, 1));
        } else if i == 24 {
            assert(t[24] == corner(p, -1, 1, -1));
        } else if i == 25 {
            assert(t[25] == corner(p, -1, 1, 1));
        } else if i == 26 {
            assert(t[26] == corner(p, -1, -1, -1));
        } else if i == 27 {
            assert(t[27] == corner(p, -1, -1, 1));
        } else if i == 28 {
            assert(t[28] == corner(p, -1, -1, -1));
        } else if i == 29 {
            assert(t[29] == corner(p, -1, 1, 1));
        } else if i == 30 {
            assert(t[30] == corner(p, -1, 1, -1));
        } else if i == 31 {
            assert(t[31] == corner(p, 1, 1, -1));
        } else if i == 32 {
            assert(t[32] == corner(p, -1, -1, -1));
        } else if i == 33 {
            assert(t[33] == corner(p, 1, -1, -1));
        } else if i == 34 {
            assert(t[34] == corner(p, -1, -1, -1));
        } else if i == 35 {
            assert(t[35] == corner(p, 1, 1, -1));
        }
    }
}

/// A coordinate times an axis component that is zero or the length of the
/// axis.
proof fn lemma_scaled_coordinate(c: int, component: int, k: int)
    by (nonlinear_arith)
    requires
        component == k,
    ensures
        c * component == k * c,
        k == 0 ==> c * component == 0,
{
}

/// The projection of a cube onto a unit vector along a coordinate axis
/// reaches half an edge to either side of the projection of its centre.
pub proof fn lemma_cube_extent(p: Vec3, axis: Axis, sign: int)
    requires
        in_world(p),
        sign == 1 || sign == -1,
    ensures
        lowest(projections_3d(cube_triangles(p), axis_unit(axis, sign))) == SCALE * (sign
            * coordinate(p, axis) - HALF_EDGE),
        highest(projections_3d(cube_triangles(p), axis_unit(axis, sign))) == SCALE * (sign
            * coordinate(p, axis) + HALF_EDGE),
{
    let t = cube_triangles(p);
    let k: int = sign * SCALE;
    assert(k == 1000 || k == -1000);
    let u = axis_unit(axis, sign);
    let s = projections_3d(t, u);
    let centre = coordinate(p, axis);
    lemma_cube_vertices(p);
    assert forall|i: int| 0 <= i < 36 implies #[trigger] s[i] == k * coordinate(t[i], axis) by {
        let v = t[i];
        assert(s[i] == dot3(v, u));
        let kx: int = if axis == Axis::X {
            k
        } else {
            0
        };
        let ky: int = if axis == Axis::Y {
            k
        } else {
            0
        };
        let kz: int = if axis == Axis::Z {
            k
        } else {
            0
        };
        assert(u.x == kx && u.y == ky && u.z == kz);
        lemma_scaled_coordinate(v.x as int, u.x as int, kx);
        lemma_scaled_coordinate(v.y as int, u.y as int, ky);
        lemma_scaled_coordinate(v.z as int, u.z as int, kz);
    }
    assert forall|i: int| 0 <= i < 36 implies (#[trigger] s[i] == k * (centre + HALF_EDGE) || s[i]
        == k * (centre - HALF_EDGE)) by {
        assert(is_corner(p, t[i]));
        assert(s[i] == k * coordinate(t[i], axis));
    }
    assert(all_in_i128(s));
    let far: int = if axis == Axis::X {
        7
    } else if axis == Axis::Y {
        2
    } else {
        1
    };
    assert(t[0] == corner(p, 1, 1, 1));
    assert(t[far] == corner(
        p,
        if axis == Axis::X {
            -1int
        } else {
            1
        },
        if axis == Axis::Y {
            -1int
        } else {
            1
        },
        if axis == Axis::Z {
            -1int
        } else {
            1
        },
    ));
    assert(s[0] == k * coordinate(t[0], axis));
    assert(s[far] == k * coordinate(t[far], axis));
    assert(coordinate(t[0], axis) == centre + HALF_EDGE);
    assert(coordinate(t[far], axis) == centre - HALF_EDGE);
    if sign == 1 {
        lemma_lowest_is(s, 1000 * (centre - HALF_EDGE), far);
        lemma_highest_is(s, 1000 * (centre + HALF_EDGE), 0);
    } else {
        lemma_lowest_is(s, -1000 * (centre + HALF_EDGE), 0);
        lemma_highest_is(s, -1000 * (centre - HALF_EDGE), far);
    }
}

/// The face of a cube that gives candidate axis `c` of a pair of cubes: the
/// twelve triangles of the first, then the twelve of the second.
pub open spec fn candidate_face(c: int) -> int {
    if c < 12 {
        c
    } else {
        c - 12
    }
}

/// What the separating-axis test sees along candidate axis `c` of the cubes
/// centred at `p` and `q`: the axis is the unit vector along a coordinate,
/// it separates the cubes when their centres are more than an edge apart in
/// that coordinate, and the penetration depth along it is what the distance
/// of the centres leaves of an edge.
pub proof fn lemma_cube_candidate(p: Vec3, q: Vec3, c: int)
    requires
        in_world(p),
        in_world(q),
        0 <= c < 24,
    ensures
        axis_count(cube_triangles(p), 3, cube_triangles(q), 3) == 24,
        candidate_axis(cube_triangles(p), 3, cube_triangles(q), 3, c) == Some(
            axis_unit(face_coordinate(candidate_face(c)), face_sign(candidate_face(c))),
        ),
        candidate_separates(cube_triangles(p), 3, cube_triangles(q), 3, c) == (gap(
            coordinate(p, face_coordinate(candidate_face(c))),
            coordinate(q, face_coordinate(candidate_face(c))),
        ) > EDGE),
        candidate_depth(cube_triangles(p), 3, cube_triangles(q), 3, c) == SCALE * (EDGE - gap(
            coordinate(p, face_coordinate(candidate_face(c))),
            coordinate(q, face_coordinate(candidate_face(c))),
        )),
{
    let a = cube_triangles(p);
    let b = cube_triangles(q);
    let k = candidate_face(c);
    let axis = face_coordinate(k);
    let sign = face_sign(k);
    let u = axis_unit(axis, sign);
    lemma_cube_vertices(p);
    lemma_cube_vertices(q);
    assert(triangle_count(36, 3) == 12);
    if c < 12 {
        lemma_cube_face_axis(p, k);
    } else {
        lemma_cube_face_axis(q, k);
    }
    assert(candidate_axis(a, 3, b, 3, c) == Some(u));
    lemma_cube_extent(p, axis, sign);
    lemma_cube_extent(q, axis, sign);
    let cp = coordinate(p, axis);
    let cq = coordinate(q, axis);
    if sign == 1 {
        assert(sign * cp == cp && sign * cq == cq);
    } else {
        assert(sign * cp == -cp && sign * cq == -cq);
    }
}

/// The separating-axis test on two cubes is the comparison of their
/// centres: the cubes collide exactly when no coordinate of their centres
/// differs by more than an edge, and the contact normal is the unit vector
/// along the coordinate in which the centres are furthest apart.
pub proof fn lemma_cubes_collide_as_boxes(p: Vec3, q: Vec3)
    requires
        in_world(p),
        in_world(q),
    ensures
        cubes_overlap(p, q) == boxes_touch(p, q),
        cubes_contact_normal(p, q) == box_contact_normal(p, q),
{
    let a = cube_triangles(p);
    let b = cube_triangles(q);
    let gx = gap(p.x as int, q.x as int);
    let gy = gap(p.y as int, q.y as int);
    let gz = gap(p.z as int, q.z as int);
    lemma_cube_candidate(p, q, 0);
    lemma_cube_candidate(p, q, 2);
    lemma_cube_candidate(p, q, 4);
    assert forall|c: int| 0 <= c < 24 implies #[trigger] candidate_separates(a, 3, b, 3, c) == (gap(
        coordinate(p, face_coordinate(candidate_face(c))),
        coordinate(q, face_coordinate(candidate_face(c))),
    ) > EDGE) && candidate_axis(a, 3, b, 3, c) is Some && candidate_depth(a, 3, b, 3, c) == SCALE
        * (EDGE - gap(
        coordinate(p, face_coordinate(candidate_face(c))),
        coordinate(q, face_coordinate(candidate_face(c))),
    )) by {
        lemma_cube_candidate(p, q, c);
    }
    if boxes_touch(p, q) {
        assert forall|c: int| 0 <= c < 24 implies !#[trigger] candidate_separates(a, 3, b, 3, c) by {
            lemma_cube_candidate(p, q, c);
        }
        assert(overlap_3d(a, 3, b, 3));
    } else {
        assert(candidate_separates(a, 3, b, 3, 0) || candidate_separates(a, 3, b, 3, 2)
            || candidate_separates(a, 3, b, 3, 4));
        assert(!overlap_3d(a, 3, b, 3));
    }
    let best: int = if gx >= gy && gx >= gz {
        0
    } else if gy >= gz {
        2
    } else {
        4
    };
    assert(is_contact_axis(a, 3, b, 3, best)) by {
        assert forall|d: int|
            0 <= d < 24 && (#[trigger] candidate_axis(a, 3, b, 3, d)) is Some implies candidate_depth(
            a,
            3,
            b,
            3,
            best,
        ) <= candidate_depth(a, 3, b, 3, d) by {
            lemma_cube_candidate(p, q, d);
        }
        assert forall|d: int|
            0 <= d < best && (#[trigger] candidate_axis(a, 3, b, 3, d)) is Some implies candidate_depth(
            a,
            3,
            b,
            3,
            d,
        ) > candidate_depth(a, 3, b, 3, best) by {
            lemma_cube_candidate(p, q, d);
        }
    }
    let chosen = choose|c: int| is_contact_axis(a, 3, b, 3, c);
    lemma_contact_axis_unique(a, 3, b, 3, best, chosen);
}

/// The contact normal of two cubes has length `SCALE`.
pub proof fn lemma_cube_contact_normal_is_unit(p: Vec3, q: Vec3)
    requires
        in_world(p),
        in_world(q),
    ensures
        dot3(cubes_contact_normal(p, q), cubes_contact_normal(p, q)) == SCALE * SCALE,
{
    lemma_cubes_collide_as_boxes(p, q);
    let n = box_contact_normal(p, q);
    assert(n == axis_unit(Axis::X, -1) || n == axis_unit(Axis::Y, -1) || n == axis_unit(
        Axis::Z,
        1,
    ));
    let x = n.x as int;
    let y = n.y as int;
    let z = n.z as int;
    assert(x * x + y * y + z * z == 1_000_000) by (nonlinear_arith)
        requires
            (x == -1000 && y == 0 && z == 0) || (x == 0 && y == -1000 && z == 0) || (x == 0 && y
                == 0 && z == 1000),
    ;
}

} // verus!
