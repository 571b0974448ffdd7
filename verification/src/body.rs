//! The rigid body of the simulation: a unit cube with a position, a velocity
//! and a mass, the triangles of its surface, and the ways it moves in a step:
//! free flight under its force, elastic reflection off a contact normal, or
//! an inelastic collision that shares its momentum with its partner.

use vstd::prelude::*;
use crate::fixed::{
    clamp, clamp_to_limit, divide_fixed, fixed_div, lemma_product_bound, lemma_trunc_div_bound,
    saturate, saturate_to_i32, scale_by_time, scaled_by_time, trunc_div, SCALE,
};
use crate::vector::{axis_unit, coordinate, dot, dot3, zero3, Axis, Vec3};

verus! {

/// Half the edge of a cube: a cube reaches this far from its centre along
/// each coordinate.
pub const HALF_EDGE: i32 = 500;

/// No coordinate of a body's centre leaves `[-WORLD_LIMIT, WORLD_LIMIT]`; a
/// body that flies further stays at the boundary.
pub const WORLD_LIMIT: i32 = 2_000_000_000;

/// The square of `SCALE`: the scale of a product of two fixed-point scalars.
pub const SCALE_SQUARED: i32 = 1_000_000;

/// How a body responds to a collision.
#[derive(Clone, Copy, Debug, PartialEq, Eq, Structural)]
pub enum CollisionResponse {
    /// The velocity is reflected about the contact normal.
    Elastic,
    /// The body and its partner go on together at the velocity of their
    /// common centre of mass.
    Inelastic,
}

/// Why a body could not be created.
#[derive(Clone, Copy, Debug, PartialEq, Eq, Structural)]
pub enum BodyError {
    /// The mass was zero or negative.
    InvalidMass,
    /// A coordinate of the centre was beyond `WORLD_LIMIT`.
    OutOfWorld,
}

/// A cube of the simulation.
#[derive(Clone, Debug)]
pub struct CubeObject {
    /// Identity of the body, unique within a simulation.
    pub id: i32,
    /// Centre of the cube.
    pub position: Vec3,
    /// Whether another body overlapped this one in the last collision pass.
    pub is_colliding: bool,
    /// Contact normal of the last collision, of length `SCALE`; stale while
    /// the body is not colliding.
    pub normal_vector: Vec3,
    /// Indices, in the simulation's body list, of the bodies that this one
    /// collided with in the last collision pass.
    pub colliding_objects: Vec<usize>,
    /// Force applied from outside.
    pub force: Vec3,
    /// Rate of change of the position, per second.
    pub velocity: Vec3,
    /// Mass, positive.
    pub mass: i32,
}

/// The mathematical value of a `CubeObject`.
pub struct Body {
    pub id: i32,
    pub position: Vec3,
    pub is_colliding: bool,
    pub normal_vector: Vec3,
    pub colliding_objects: Seq<int>,
    pub force: Vec3,
    pub velocity: Vec3,
    pub mass: i32,
}

impl View for CubeObject {
    type V = Body;

    open spec fn view(&self) -> Body {
        Body {
            id: self.id,
            position: self.position,
            is_colliding: self.is_colliding,
            normal_vector: self.normal_vector,
            colliding_objects: Seq::new(
                self.colliding_objects@.len(),
                |k: int| self.colliding_objects@[k] as int,
            ),
            force: self.force,
            velocity: self.velocity,
            mass: self.mass,
        }
    }
}

/// Whether the point `p` lies within the world.
pub open spec fn in_world(p: Vec3) -> bool {
    &&& -WORLD_LIMIT <= p.x <= WORLD_LIMIT
    &&& -WORLD_LIMIT <= p.y <= WORLD_LIMIT
    &&& -WORLD_LIMIT <= p.z <= WORLD_LIMIT
}

/// The corner of the cube centred at `p` that lies on the side `sx`, `sy`,
/// `sz` (each `1` or `-1`) of the centre. Within the world a corner is half
/// an edge from the centre along each coordinate; at the very limits of the
/// coordinates it is held within 32 bits.
pub open spec fn corner(p: Vec3, sx: int, sy: int, sz: int) -> Vec3 {
    Vec3 {
        x: saturate(p.x + sx * HALF_EDGE) as i32,
        y: saturate(p.y + sy * HALF_EDGE) as i32,
        z: saturate(p.z + sz * HALF_EDGE) as i32,
    }
}

/// The surface of the cube centred at `p` as twelve triangles, two to a
/// face, in the order of the faces `+x`, `+y`, `+z`, `-y`, `-x`, `-z`.
pub open spec fn cube_triangles(p: Vec3) -> Seq<Vec3> {
    let a = corner(p, 1, 1, 1);
    let b = corner(p, 1, 1, -1);
    let c = corner(p, 1, -1, 1);
    let d = corner(p, 1, -1, -1);
    let e = corner(p, -1, 1, 1);
    let f = corner(p, -1, 1, -1);
    let g = corner(p, -1, -1, 1);
    let h = corner(p, -1, -1, -1);
    seq![
        a, b, c, d, c, b,
        a, e, b, f, b, e,
        a, e, c, g, c, e,
        c, g, d, h, d, g,
        f, e, h, g, h, e,
        f, b, h, d, h, b,
    ]
}

/// The point reached from `p` after `dt` microseconds at velocity `v`, held
/// within the world.
pub open spec fn displaced(p: Vec3, v: Vec3, dt: int) -> Vec3 {
    Vec3 {
        x: clamp(p.x + scaled_by_time(v.x as int, dt), -WORLD_LIMIT, WORLD_LIMIT as int) as i32,
        y: clamp(p.y + scaled_by_time(v.y as int, dt), -WORLD_LIMIT, WORLD_LIMIT as int) as i32,
        z: clamp(p.z + scaled_by_time(v.z as int, dt), -WORLD_LIMIT, WORLD_LIMIT as int) as i32,
    }
}

/// One component of a velocity after `dt` microseconds under the force
/// component `f` on the mass `mass`.
pub open spec fn accelerated_component(v: int, f: int, mass: int, dt: int) -> int {
    saturate(v + scaled_by_time(fixed_div(f, mass), dt))
}

/// The velocity `v` after `dt` microseconds under `force` on the mass `mass`.
pub open spec fn accelerated(v: Vec3, force: Vec3, mass: int, dt: int) -> Vec3 {
    Vec3 {
        x: accelerated_component(v.x as int, force.x as int, mass, dt) as i32,
        y: accelerated_component(v.y as int, force.y as int, mass, dt) as i32,
        z: accelerated_component(v.z as int, force.z as int, mass, dt) as i32,
    }
}

/// One component of the reflection of a velocity: the component `v` less
/// twice the velocity's part along the normal, whose component is `n`.
pub open spec fn reflected_component(v: int, n: int, twice_dot: int) -> int {
    saturate(v - trunc_div(n * twice_dot, SCALE_SQUARED as int))
}

/// The velocity `v` reflected about the contact normal `n`, a vector of
/// length `SCALE`: `v - 2 (n . v) n`.
pub open spec fn reflected(v: Vec3, n: Vec3) -> Vec3 {
    let twice_dot = 2 * dot3(n, v);
    Vec3 {
        x: reflected_component(v.x as int, n.x as int, twice_dot) as i32,
        y: reflected_component(v.y as int, n.y as int, twice_dot) as i32,
        z: reflected_component(v.z as int, n.z as int, twice_dot) as i32,
    }
}

/// One component of the common velocity of two bodies after a perfectly
/// inelastic collision: their total momentum over their total mass.
pub open spec fn merged_component(v: int, m: int, v_other: int, m_other: int) -> int {
    saturate(trunc_div(v_other * m_other + v * m, m + m_other))
}

/// The common velocity of two bodies after a perfectly inelastic collision.
pub open spec fn merged_velocity(v: Vec3, m: int, v_other: Vec3, m_other: int) -> Vec3 {
    Vec3 {
        x: merged_component(v.x as int, m, v_other.x as int, m_other) as i32,
        y: merged_component(v.y as int, m, v_other.y as int, m_other) as i32,
        z: merged_component(v.z as int, m, v_other.z as int, m_other) as i32,
    }
}

impl Body {
    /// A valid body has a positive mass and its centre within the world.
    pub open spec fn wf(self) -> bool {
        self.mass > 0 && in_world(self.position)
    }

    /// The body as created: at rest, under no force, touching nothing.
    pub open spec fn at_rest(id: i32, position: Vec3, mass: i32) -> Body {
        Body {
            id,
            position,
            is_colliding: false,
            normal_vector: zero3(),
            colliding_objects: Seq::empty(),
            force: zero3(),
            velocity: zero3(),
            mass,
        }
    }

    /// Free flight for `dt` microseconds: the position advances by the old
    /// velocity, then the velocity changes by force over mass.
    pub open spec fn free_flight(self, dt: int) -> Body {
        Body {
            position: displaced(self.position, self.velocity, dt),
            velocity: accelerated(self.velocity, self.force, self.mass as int, dt),
            ..self
        }
    }

    /// Elastic reflection: the velocity is reflected about the contact
    /// normal, then the position advances by the new velocity. The force
    /// does not act.
    pub open spec fn bounced(self, dt: int) -> Body {
        let velocity = reflected(self.velocity, self.normal_vector);
        Body { position: displaced(self.position, velocity, dt), velocity, ..self }
    }

    /// One integration step: reflection while the body has colliding
    /// neighbours, free flight otherwise.
    pub open spec fn integrated(self, dt: int) -> Body {
        if self.colliding_objects.len() > 0 {
            self.bounced(dt)
        } else {
            self.free_flight(dt)
        }
    }

    /// Perfectly inelastic collision with `other`, seen from this body: it
    /// takes the common velocity and advances by it.
    pub open spec fn merged_with(self, other: Body, dt: int) -> Body {
        let velocity = merged_velocity(
            self.velocity,
            self.mass as int,
            other.velocity,
            other.mass as int,
        );
        Body { position: displaced(self.position, velocity, dt), velocity, ..self }
    }

    /// Perfectly inelastic collision, seen from the partner `other` of
    /// `first`: it takes the common velocity and stays where it is.
    pub open spec fn merged_partner(other: Body, first: Body) -> Body {
        Body {
            velocity: merged_velocity(
                first.velocity,
                first.mass as int,
                other.velocity,
                other.mass as int,
            ),
            ..other
        }
    }
}

/// The vector `v` with coordinate `axis` replaced by its negative, held
/// within 32 bits.
pub open spec fn flipped(v: Vec3, axis: Axis) -> Vec3 {
    Vec3 {
        x: if axis == Axis::X {
            saturate(-v.x) as i32
        } else {
            v.x
        },
        y: if axis == Axis::Y {
            saturate(-v.y) as i32
        } else {
            v.y
        },
        z: if axis == Axis::Z {
            saturate(-v.z) as i32
        } else {
            v.z
        },
    }
}

/// Reflection about a unit normal along a coordinate axis flips the sign of
/// the velocity along that axis exactly and leaves the other two
/// coordinates as they are.
pub proof fn lemma_reflection_flips_normal_component(v: Vec3, axis: Axis, sign: int)
    requires
        sign == 1 || sign == -1,
    ensures
        reflected(v, axis_unit(axis, sign)) == flipped(v, axis),
{
    let n = axis_unit(axis, sign);
    let k: int = sign * SCALE;
    assert(k == 1000 || k == -1000);
    let c = coordinate(v, axis);
    let twice_dot = 2 * dot3(n, v);
    assert(dot3(n, v) == k * c) by {
        lemma_axis_product(
            n.x as int,
            v.x as int,
            if axis == Axis::X {
                k
            } else {
                0
            },
        );
        lemma_axis_product(
            n.y as int,
            v.y as int,
            if axis == Axis::Y {
                k
            } else {
                0
            },
        );
        lemma_axis_product(
            n.z as int,
            v.z as int,
            if axis == Axis::Z {
                k
            } else {
                0
            },
        );
    }
    assert(k * twice_dot == 2_000_000 * c) by (nonlinear_arith)
        requires
            twice_dot == 2 * (k * c),
            k == 1000 || k == -1000,
    ;
    assert(0 * twice_dot == 0);
    assert(trunc_div(2_000_000 * c, SCALE_SQUARED as int) == 2 * c);
    assert(trunc_div(0, SCALE_SQUARED as int) == 0);
    assert(reflected_component(c, k, twice_dot) == saturate(-c));
    assert(reflected_component(v.x as int, 0, twice_dot) == v.x);
    assert(reflected_component(v.y as int, 0, twice_dot) == v.y);
    assert(reflected_component(v.z as int, 0, twice_dot) == v.z);
}

/// The product of an axis component, which is `k`, with a coordinate.
proof fn lemma_axis_product(component: int, c: int, k: int)
    by (nonlinear_arith)
    requires
        component == k,
    ensures
        component * c == k * c,
        k == 0 ==> component * c == 0,
{
}

/// Reflecting twice about the same unit normal along a coordinate axis gives
/// the velocity back, as long as its negative along that axis fits 32 bits.
pub proof fn lemma_reflection_twice(v: Vec3, axis: Axis, sign: int)
    requires
        sign == 1 || sign == -1,
        coordinate(v, axis) > i32::MIN,
    ensures
        reflected(reflected(v, axis_unit(axis, sign)), axis_unit(axis, sign)) == v,
{
    lemma_reflection_flips_normal_component(v, axis, sign);
    lemma_reflection_flips_normal_component(flipped(v, axis), axis, sign);
}

/// Free flight moves a body by the velocity it had before the step: a body
/// at rest stays where it is for that step, whatever force acts on it, and
/// leaves the step with the velocity that the force gave it.
pub proof fn lemma_free_flight_uses_old_velocity(b: Body, dt: int)
    requires
        b.wf(),
        b.velocity == zero3(),
    ensures
        b.free_flight(dt).position == b.position,
        b.free_flight(dt).velocity == accelerated(zero3(), b.force, b.mass as int, dt),
{
    assert(0 * dt == 0) by (nonlinear_arith);
    assert(scaled_by_time(0, dt) == 0);
}

/// Whether `p` lies within the world.
pub fn within_world(p: Vec3) -> (r: bool)
    ensures
        r == in_world(p),
{
    -WORLD_LIMIT <= p.x && p.x <= WORLD_LIMIT && -WORLD_LIMIT <= p.y && p.y <= WORLD_LIMIT
        && -WORLD_LIMIT <= p.z && p.z <= WORLD_LIMIT
}

/// The point reached from `p` after `dt` microseconds at velocity `v`, held
/// within the world.
pub fn displace(p: Vec3, v: Vec3, dt: u32) -> (r: Vec3)
    ensures
        r == displaced(p, v, dt as int),
        in_world(r),
{
    Vec3 {
        x: clamp_to_limit(p.x as i128 + scale_by_time(v.x as i64, dt), WORLD_LIMIT),
        y: clamp_to_limit(p.y as i128 + scale_by_time(v.y as i64, dt), WORLD_LIMIT),
        z: clamp_to_limit(p.z as i128 + scale_by_time(v.z as i64, dt), WORLD_LIMIT),
    }
}

/// One component of a velocity after `dt` microseconds under a force.
fn accelerate_component(v: i32, f: i32, mass: i32, dt: u32) -> (r: i32)
    requires
        mass > 0,
    ensures
        r == accelerated_component(v as int, f as int, mass as int, dt as int),
{
    saturate_to_i32(v as i128 + scale_by_time(divide_fixed(f, mass), dt))
}

/// One component of a reflected velocity.
fn reflect_component(v: i32, n: i32, twice_dot: i128) -> (r: i32)
    requires
        -0x2_0000_0000_0000_0000 <= twice_dot <= 0x2_0000_0000_0000_0000,
    ensures
        r == reflected_component(v as int, n as int, twice_dot as int),
{
    proof {
        lemma_product_bound(n as int, twice_dot as int, 0x8000_0000, 0x2_0000_0000_0000_0000);
        lemma_trunc_div_bound(n * twice_dot, SCALE_SQUARED as int);
    }
    saturate_to_i32(v as i128 - (n as i128) * twice_dot / (SCALE_SQUARED as i128))
}

/// The velocity `v` reflected about the contact normal `n`.
pub fn reflect(v: Vec3, n: Vec3) -> (r: Vec3)
    ensures
        r == reflected(v, n),
{
    let twice_dot: i128 = 2 * dot(n, v);
    Vec3 {
        x: reflect_component(v.x, n.x, twice_dot),
        y: reflect_component(v.y, n.y, twice_dot),
        z: reflect_component(v.z, n.z, twice_dot),
    }
}

/// One component of the common velocity after an inelastic collision.
fn merge_component(v: i32, m: i32, v_other: i32, m_other: i32) -> (r: i32)
    requires
        m > 0,
        m_other > 0,
    ensures
        r == merged_component(v as int, m as int, v_other as int, m_other as int),
{
    proof {
        lemma_product_bound(v as int, m as int, 0x8000_0000, 0x8000_0000);
        lemma_product_bound(v_other as int, m_other as int, 0x8000_0000, 0x8000_0000);
        lemma_trunc_div_bound(v_other * m_other + v * m, m + m_other);
    }
    let momentum: i128 = (v_other as i128) * (m_other as i128) + (v as i128) * (m as i128);
    saturate_to_i32(momentum / (m as i128 + m_other as i128))
}

/// The common velocity of two bodies after a perfectly inelastic collision:
/// their total momentum over their total mass.
pub fn merge_velocity(v: Vec3, m: i32, v_other: Vec3, m_other: i32) -> (r: Vec3)
    requires
        m > 0,
        m_other > 0,
    ensures
        r == merged_velocity(v, m as int, v_other, m_other as int),
{
    Vec3 {
        x: merge_component(v.x, m, v_other.x, m_other),
        y: merge_component(v.y, m, v_other.y, m_other),
        z: merge_component(v.z, m, v_other.z, m_other),
    }
}

impl CubeObject {
    /// A valid body has a positive mass and its centre within the world.
    pub open spec fn wf(&self) -> bool {
        self@.wf()
    }

    /// Creates a body at rest. A mass that is not positive is refused, and
    /// so is a centre outside the world.
    pub fn new(id: i32, position: Vec3, mass: i32) -> (r: Result<CubeObject, BodyError>)
        ensures
            match r {
                Ok(cube) => mass > 0 && in_world(position) && cube@ == Body::at_rest(
                    id,
                    position,
                    mass,
                ),
                Err(BodyError::InvalidMass) => mass <= 0,
                Err(BodyError::OutOfWorld) => mass > 0 && !in_world(position),
            },
    {
        if mass <= 0 {
            return Err(BodyError::InvalidMass);
        }
        if !within_world(position) {
            return Err(BodyError::OutOfWorld);
        }
        let zero = Vec3 { x: 0, y: 0, z: 0 };
        let cube = CubeObject {
            id,
            position,
            is_colliding: false,
            normal_vector: zero,
            colliding_objects: Vec::new(),
            force: zero,
            velocity: zero,
            mass,
        };
        assert(cube@.colliding_objects =~= Seq::empty());
        Ok(cube)
    }

    /// The surface of the cube at its current position as a list of twelve
    /// triangles, three vertices each.
    pub fn get_verts(&self) -> (verts: Vec<Vec3>)
        ensures
            verts@ == cube_triangles(self.position),
    {
        let p = self.position;
        let half: i128 = HALF_EDGE as i128;
        let x_hi = saturate_to_i32(p.x as i128 + half);
        let x_lo = saturate_to_i32(p.x as i128 - half);
        let y_hi = saturate_to_i32(p.y as i128 + half);
        let y_lo = saturate_to_i32(p.y as i128 - half);
        let z_hi = saturate_to_i32(p.z as i128 + half);
        let z_lo = saturate_to_i32(p.z as i128 - half);
        let a = Vec3 { x: x_hi, y: y_hi, z: z_hi };
        let b = Vec3 { x: x_hi, y: y_hi, z: z_lo };
        let c = Vec3 { x: x_hi, y: y_lo, z: z_hi };
        let d = Vec3 { x: x_hi, y: y_lo, z: z_lo };
        let e = Vec3 { x: x_lo, y: y_hi, z: z_hi };
        let f = Vec3 { x: x_lo, y: y_hi, z: z_lo };
        let g = Vec3 { x: x_lo, y: y_lo, z: z_hi };
        let h = Vec3 { x: x_lo, y: y_lo, z: z_lo };
        let verts = vec![
            a, b, c, d, c, b,
            a, e, b, f, b, e,
            a, e, c, g, c, e,
            c, g, d, h, d, g,
            f, e, h, g, h, e,
            f, b, h, d, h, b,
        ];
        assert(verts@ =~= cube_triangles(self.position));
        verts
    }

    /// The colour in which the body is drawn, as red, green and blue parts of
    /// `SCALE`: red while it collides, green otherwise.
    pub fn color(&self) -> (rgb: Vec3)
        ensures
            rgb == if self.is_colliding {
                Vec3 { x: SCALE, y: 0, z: 0 }
            } else {
                Vec3 { x: 0, y: SCALE, z: 0 }
            },
    {
        if self.is_colliding {
            Vec3 { x: SCALE, y: 0, z: 0 }
        } else {
            Vec3 { x: 0, y: SCALE, z: 0 }
        }
    }

    /// Advances the body by `delta_time` microseconds: by elastic reflection
    /// while it has colliding neighbours, in free flight otherwise.
    pub fn integrate(&mut self, delta_time: u32)
        requires
            old(self).wf(),
        ensures
            final(self)@ == old(self)@.integrated(delta_time as int),
            final(self).wf(),
    {
        if self.colliding_objects.len() > 0 {
            elastic_collision_reaction(self, delta_time);
        } else {
            self.position = displace(self.position, self.velocity, delta_time);
            self.velocity = Vec3 {
                x: accelerate_component(self.velocity.x, self.force.x, self.mass, delta_time),
                y: accelerate_component(self.velocity.y, self.force.y, self.mass, delta_time),
                z: accelerate_component(self.velocity.z, self.force.z, self.mass, delta_time),
            };
        }
    }
}

/// Elastic response to a collision: reflects the velocity of `cube` about
/// its contact normal and advances it by the reflected velocity.
pub fn elastic_collision_reaction(cube: &mut CubeObject, delta_time: u32)
    ensures
        final(cube)@ == old(cube)@.bounced(delta_time as int),
        in_world(final(cube).position),
{
    let reflected = reflect(cube.velocity, cube.normal_vector);
    cube.velocity = reflected;
    cube.position = displace(cube.position, cube.velocity, delta_time);
}

/// Perfectly inelastic response to a collision of `cube` with `other`: both
/// take the velocity of their common centre of mass, and `cube` advances by
/// it.
pub fn inelastic_collision_reaction(
    cube: &mut CubeObject,
    other: &mut CubeObject,
    delta_time: u32,
)
    requires
        old(cube).mass > 0,
        old(other).mass > 0,
    ensures
        final(cube)@ == old(cube)@.merged_with(old(other)@, delta_time as int),
        final(other)@ == Body::merged_partner(old(other)@, old(cube)@),
        in_world(final(cube).position),
{
    let new_velocity = merge_velocity(cube.velocity, cube.mass, other.velocity, other.mass);
    cube.velocity = new_velocity;
    other.velocity = new_velocity;
    cube.position = displace(cube.position, cube.velocity, delta_time);
}

} // verus!
