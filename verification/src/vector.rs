//! Points and directions with integer components, and the exact products
//! that the overlap tests project with.

use vstd::prelude::*;
use crate::fixed::{floor_sqrt, isqrt, lemma_product_bound, trunc_div, SCALE};

verus! {

/// A point or direction in the plane.
#[derive(Clone, Copy, Debug, PartialEq, Eq, Structural)]
pub struct Vec2 {
    pub x: i32,
    pub y: i32,
}

/// A point or direction in space.
#[derive(Clone, Copy, Debug, PartialEq, Eq, Structural)]
pub struct Vec3 {
    pub x: i32,
    pub y: i32,
    pub z: i32,
}

/// A coordinate axis of space.
#[derive(Clone, Copy, Debug, PartialEq, Eq, Structural)]
pub enum Axis {
    X,
    Y,
    Z,
}

/// A projection axis in the plane. The perpendicular of the edge between two
/// `Vec2` points needs one bit more than a coordinate, hence the wider fields.
#[derive(Clone, Copy, Debug, PartialEq, Eq, Structural)]
pub struct Axis2 {
    pub x: i64,
    pub y: i64,
}

/// The exact, unnormalised normal of a triangle of `Vec3` points.
#[derive(Clone, Copy, Debug, PartialEq, Eq, Structural)]
pub struct Normal3 {
    pub x: i128,
    pub y: i128,
    pub z: i128,
}

/// Largest magnitude of a difference of two coordinates.
pub open spec fn edge_bound() -> int {
    0xffff_ffff
}

/// Largest magnitude of a component of a raw face normal.
pub open spec fn normal_bound() -> int {
    2 * edge_bound() * edge_bound()
}

/// A raw normal with a component of at least this magnitude is scaled down
/// before its length is taken, so that the squared length fits 128 bits.
pub const LARGE_NORMAL: i128 = 0x100_0000_0000;

/// Divisor applied to the components of a raw normal that reaches
/// `LARGE_NORMAL`.
pub const LARGE_DIVISOR: i128 = 0x400_0000;

/// A raw normal whose components all stay below this magnitude is scaled up
/// before its length is taken, so that the rounded length is precise.
pub const SMALL_NORMAL: i128 = 0x10_0000;

/// Factor applied to the components of a raw normal that stays below
/// `SMALL_NORMAL`.
pub const SMALL_FACTOR: i128 = 0x10_0000;

/// The zero vector.
pub open spec fn zero3() -> Vec3 {
    Vec3 { x: 0, y: 0, z: 0 }
}

/// Coordinate `axis` of `p`.
pub open spec fn coordinate(p: Vec3, axis: Axis) -> int {
    match axis {
        Axis::X => p.x as int,
        Axis::Y => p.y as int,
        Axis::Z => p.z as int,
    }
}

/// The vector along `axis` whose only component is `k`.
pub open spec fn along(axis: Axis, k: int) -> Vec3 {
    Vec3 {
        x: if axis == Axis::X {
            k as i32
        } else {
            0
        },
        y: if axis == Axis::Y {
            k as i32
        } else {
            0
        },
        z: if axis == Axis::Z {
            k as i32
        } else {
            0
        },
    }
}

/// The unit vector along `axis` with the sign `sign` (1 or -1).
pub open spec fn axis_unit(axis: Axis, sign: int) -> Vec3 {
    along(axis, sign * SCALE)
}

/// Scalar product of a point with a planar axis.
pub open spec fn dot2(v: Vec2, axis: Axis2) -> int {
    v.x * axis.x + v.y * axis.y
}

/// Scalar product of two spatial vectors.
pub open spec fn dot3(v: Vec3, w: Vec3) -> int {
    v.x * w.x + v.y * w.y + v.z * w.z
}

/// The edge direction `end - start` turned by a quarter turn: `(-dy, dx)`.
pub open spec fn edge_normal(start: Vec2, end: Vec2) -> Axis2 {
    Axis2 { x: (-(end.y - start.y)) as i64, y: (end.x - start.x) as i64 }
}

/// The cross product `(b - a) x (c - a)`.
pub open spec fn face_normal(a: Vec3, b: Vec3, c: Vec3) -> Normal3 {
    let ux = b.x - a.x;
    let uy = b.y - a.y;
    let uz = b.z - a.z;
    let vx = c.x - a.x;
    let vy = c.y - a.y;
    let vz = c.z - a.z;
    Normal3 {
        x: (uy * vz - uz * vy) as i128,
        y: (uz * vx - ux * vz) as i128,
        z: (ux * vy - uy * vx) as i128,
    }
}

/// Whether each component of `n` is within what a face normal can reach.
pub open spec fn normal_in_range(n: Normal3) -> bool {
    &&& -normal_bound() <= n.x <= normal_bound()
    &&& -normal_bound() <= n.y <= normal_bound()
    &&& -normal_bound() <= n.z <= normal_bound()
}

/// Whether some component of `n` has a magnitude of at least `bound`.
pub open spec fn reaches(n: Normal3, bound: int) -> bool {
    ||| n.x <= -bound || n.x >= bound
    ||| n.y <= -bound || n.y >= bound
    ||| n.z <= -bound || n.z >= bound
}

/// The component `c` of the raw normal `n` as it enters the length
/// computation: divided where `n` is large, multiplied where `n` is small.
/// Either way the direction of `n` is kept, up to the rounding of the
/// division.
pub open spec fn rescaled(c: int, n: Normal3) -> int {
    if reaches(n, LARGE_NORMAL as int) {
        trunc_div(c, LARGE_DIVISOR as int)
    } else if !reaches(n, SMALL_NORMAL as int) {
        c * SMALL_FACTOR
    } else {
        c
    }
}

/// Squared length of the rescaled normal.
pub open spec fn rescaled_len2(n: Normal3) -> int {
    let px = rescaled(n.x as int, n);
    let py = rescaled(n.y as int, n);
    let pz = rescaled(n.z as int, n);
    px * px + py * py + pz * pz
}

/// The direction of `n` as a vector of length `SCALE`, each component rounded
/// toward zero; `None` for the zero vector, which has no direction.
pub open spec fn unit_normal(n: Normal3) -> Option<Vec3> {
    let len = floor_sqrt(rescaled_len2(n));
    if n.x == 0 && n.y == 0 && n.z == 0 {
        None
    } else {
        Some(
            Vec3 {
                x: trunc_div(rescaled(n.x as int, n) * SCALE, len) as i32,
                y: trunc_div(rescaled(n.y as int, n) * SCALE, len) as i32,
                z: trunc_div(rescaled(n.z as int, n) * SCALE, len) as i32,
            },
        )
    }
}

/// Builds a planar point.
pub fn vec2(x: i32, y: i32) -> (v: Vec2)
    ensures
        v == (Vec2 { x, y }),
{
    Vec2 { x, y }
}

/// Builds a spatial point.
pub fn vec3(x: i32, y: i32, z: i32) -> (v: Vec3)
    ensures
        v == (Vec3 { x, y, z }),
{
    Vec3 { x, y, z }
}

/// Scalar product of two spatial vectors, exact.
pub fn dot(v: Vec3, w: Vec3) -> (d: i128)
    ensures
        d == dot3(v, w),
        -0xc000_0000_0000_0000 <= d <= 0xc000_0000_0000_0000,
{
    proof {
        lemma_product_bound(v.x as int, w.x as int, 0x8000_0000, 0x8000_0000);
        lemma_product_bound(v.y as int, w.y as int, 0x8000_0000, 0x8000_0000);
        lemma_product_bound(v.z as int, w.z as int, 0x8000_0000, 0x8000_0000);
    }
    (v.x as i128) * (w.x as i128) + (v.y as i128) * (w.y as i128) + (v.z as i128) * (w.z as i128)
}

/// Perpendicular of the edge from `start` to `end`.
pub fn perpendicular(start: Vec2, end: Vec2) -> (axis: Axis2)
    ensures
        axis == edge_normal(start, end),
        -edge_bound() <= axis.x <= edge_bound(),
        -edge_bound() <= axis.y <= edge_bound(),
{
    Axis2 { x: -(end.y as i64 - start.y as i64), y: end.x as i64 - start.x as i64 }
}

/// Normal of the triangle `a`, `b`, `c` by the cross product of its edges
/// `b - a` and `c - a`.
pub fn cross(a: Vec3, b: Vec3, c: Vec3) -> (n: Normal3)
    ensures
        n == face_normal(a, b, c),
        normal_in_range(n),
{
    let ux: i128 = b.x as i128 - a.x as i128;
    let uy: i128 = b.y as i128 - a.y as i128;
    let uz: i128 = b.z as i128 - a.z as i128;
    let vx: i128 = c.x as i128 - a.x as i128;
    let vy: i128 = c.y as i128 - a.y as i128;
    let vz: i128 = c.z as i128 - a.z as i128;
    proof {
        let e = edge_bound();
        lemma_product_bound(uy as int, vz as int, e, e);
        lemma_product_bound(uz as int, vy as int, e, e);
        lemma_product_bound(uz as int, vx as int, e, e);
        lemma_product_bound(ux as int, vz as int, e, e);
        lemma_product_bound(ux as int, vy as int, e, e);
        lemma_product_bound(uy as int, vx as int, e, e);
        assert(e * e == 0xffff_fffe_0000_0001) by (nonlinear_arith)
            requires
                e == 0xffff_ffff,
        ;
    }
    Normal3 { x: uy * vz - uz * vy, y: uz * vx - ux * vz, z: ux * vy - uy * vx }
}

/// A component of a vector is no longer than the vector: if `p * p` is at most
/// `len2` and `len` is the rounded-down root of `len2`, then `|p| <= len`.
proof fn lemma_component_within_length(p: int, len2: int, len: int)
    requires
        0 <= p * p <= len2,
        0 <= len,
        len2 < (len + 1) * (len + 1),
    ensures
        -len <= p <= len,
{
    if p > len {
        assert(p * p >= (len + 1) * (len + 1)) by (nonlinear_arith)
            requires
                p >= len + 1,
                len >= 0,
        ;
    } else if p < -len {
        assert(p * p >= (len + 1) * (len + 1)) by (nonlinear_arith)
            requires
                -p >= len + 1,
                len >= 0,
        ;
    }
}

/// Scaling a component by `SCALE` and dividing by a length that is no
/// shorter than the component stays within `[-SCALE, SCALE]`.
proof fn lemma_unit_component_bound(p: int, len: int)
    requires
        len > 0,
        -len <= p <= len,
    ensures
        -SCALE <= trunc_div(p * SCALE, len) <= SCALE,
{
    if p >= 0 {
        assert(0 <= (p * SCALE) / len <= SCALE) by (nonlinear_arith)
            requires
                0 <= p <= len,
                len > 0,
                SCALE == 1000,
        ;
    } else {
        assert(0 <= (-(p * SCALE)) / len <= SCALE) by (nonlinear_arith)
            requires
                0 <= -p <= len,
                len > 0,
                SCALE == 1000,
        ;
    }
}

/// Scales a raw normal to length `SCALE`. The zero vector has no direction.
pub fn normalize(n: Normal3) -> (r: Option<Vec3>)
    requires
        normal_in_range(n),
    ensures
        r == unit_normal(n),
        r matches Some(u) ==> -SCALE <= u.x <= SCALE && -SCALE <= u.y <= SCALE && -SCALE <= u.z
            <= SCALE,
{
    if n.x == 0 && n.y == 0 && n.z == 0 {
        return None;
    }
    let large = n.x <= -LARGE_NORMAL || n.x >= LARGE_NORMAL || n.y <= -LARGE_NORMAL || n.y
        >= LARGE_NORMAL || n.z <= -LARGE_NORMAL || n.z >= LARGE_NORMAL;
    let small = !(n.x <= -SMALL_NORMAL || n.x >= SMALL_NORMAL || n.y <= -SMALL_NORMAL || n.y
        >= SMALL_NORMAL || n.z <= -SMALL_NORMAL || n.z >= SMALL_NORMAL);
    let px: i128 = if large {
        n.x / LARGE_DIVISOR
    } else if small {
        n.x * SMALL_FACTOR
    } else {
        n.x
    };
    let py: i128 = if large {
        n.y / LARGE_DIVISOR
    } else if small {
        n.y * SMALL_FACTOR
    } else {
        n.y
    };
    let pz: i128 = if large {
        n.z / LARGE_DIVISOR
    } else if small {
        n.z * SMALL_FACTOR
    } else {
        n.z
    };
    assert(large == reaches(n, LARGE_NORMAL as int));
    assert(small == !reaches(n, SMALL_NORMAL as int));
    assert(px == rescaled(n.x as int, n));
    assert(py == rescaled(n.y as int, n));
    assert(pz == rescaled(n.z as int, n));
    let bound: i128 = 0x100_0000_0000;
    assert(-bound <= px <= bound && -bound <= py <= bound && -bound <= pz <= bound);
    assert(px != 0 || py != 0 || pz != 0);
    proof {
        lemma_product_bound(px as int, px as int, bound as int, bound as int);
        lemma_product_bound(py as int, py as int, bound as int, bound as int);
        lemma_product_bound(pz as int, pz as int, bound as int, bound as int);
        assert(px * px >= 0 && (px != 0 ==> px * px >= 1)) by (nonlinear_arith);
        assert(py * py >= 0 && (py != 0 ==> py * py >= 1)) by (nonlinear_arith);
        assert(pz * pz >= 0 && (pz != 0 ==> pz * pz >= 1)) by (nonlinear_arith);
    }
    let len2: i128 = px * px + py * py + pz * pz;
    let len: i128 = isqrt(len2 as u128) as i128;
    assert(len2 == rescaled_len2(n));
    assert(len == floor_sqrt(rescaled_len2(n)));
    proof {
        assert(len >= 1) by {
            if len == 0 {
                assert((len + 1) * (len + 1) == 1) by (nonlinear_arith)
                    requires
                        len == 0,
                ;
            }
        }
        lemma_component_within_length(px as int, len2 as int, len as int);
        lemma_component_within_length(py as int, len2 as int, len as int);
        lemma_component_within_length(pz as int, len2 as int, len as int);
        lemma_unit_component_bound(px as int, len as int);
        lemma_unit_component_bound(py as int, len as int);
        lemma_unit_component_bound(pz as int, len as int);
        lemma_product_bound(px as int, SCALE as int, bound as int, 1000);
        lemma_product_bound(py as int, SCALE as int, bound as int, 1000);
        lemma_product_bound(pz as int, SCALE as int, bound as int, 1000);
    }
    let scale: i128 = SCALE as i128;
    Some(
        Vec3 {
            x: (px * scale / len) as i32,
            y: (py * scale / len) as i32,
            z: (pz * scale / len) as i32,
        },
    )
}

} // verus!
