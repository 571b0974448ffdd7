//! The simulation: the list of bodies, the collision pass that records for
//! each body the first other body it overlaps, the integration pass, and the
//! driver that cuts a frame into fixed steps.

use vstd::prelude::*;
use crate::body::{
    cube_triangles, displace, in_world, merge_velocity, Body, CollisionResponse, CubeObject,
};
use crate::boxes::lemma_cube_contact_normal_is_unit;
use crate::collision::{contact_normal, overlap_3d, test_collision_3d};
use crate::fixed::SCALE;
use crate::vector::{dot3, zero3, Vec3};

verus! {

/// Length of one simulation step in microseconds: a sixtieth of a second.
pub const FIXED_STEP: u32 = 16_667;

/// Number of slots in a key table: one for each key that the window system
/// tells apart, and room to spare.
pub const KEY_SLOTS: usize = 255;

/// The state of the simulation: its bodies, in a fixed order.
#[derive(Debug)]
pub struct CubeGameState {
    pub cubes: Vec<CubeObject>,
}

/// The mathematical values of a list of bodies.
pub open spec fn models(cubes: Seq<CubeObject>) -> Seq<Body> {
    Seq::new(cubes.len(), |i: int| cubes[i]@)
}

impl View for CubeGameState {
    type V = Seq<Body>;

    open spec fn view(&self) -> Seq<Body> {
        models(self.cubes@)
    }
}

/// The centres of a list of bodies.
pub open spec fn positions(s: Seq<Body>) -> Seq<Vec3> {
    Seq::new(s.len(), |i: int| s[i].position)
}

/// Every body of the list is valid.
pub open spec fn all_wf(s: Seq<Body>) -> bool {
    forall|i: int| 0 <= i < s.len() ==> (#[trigger] s[i]).wf()
}

/// No two bodies of the list have the same identity.
pub open spec fn ids_unique(s: Seq<Body>) -> bool {
    forall|i: int, j: int|
        0 <= i < s.len() && 0 <= j < s.len() && i != j ==> (#[trigger] s[i]).id != (
        #[trigger] s[j]).id
}

/// Every centre of the list lies within the world.
pub open spec fn all_in_world(ps: Seq<Vec3>) -> bool {
    forall|i: int| 0 <= i < ps.len() ==> in_world(#[trigger] ps[i])
}

/// Whether the cubes centred at `p` and `q` collide: the answer of the
/// separating-axis test on their surfaces.
pub open spec fn cubes_overlap(p: Vec3, q: Vec3) -> bool {
    overlap_3d(cube_triangles(p), 3, cube_triangles(q), 3)
}

/// The contact normal of the colliding cubes centred at `p` and `q`.
pub open spec fn cubes_contact_normal(p: Vec3, q: Vec3) -> Vec3 {
    contact_normal(cube_triangles(p), 3, cube_triangles(q), 3)
}

/// Whether the bodies `i` and `j` of a list of centres collide.
pub open spec fn pair_overlaps(ps: Seq<Vec3>, i: int, j: int) -> bool {
    cubes_overlap(ps[i], ps[j])
}

/// Body `j` is the partner of body `i`: the first body in list order, other
/// than `i` itself, that `i` collides with.
pub open spec fn is_first_partner(ps: Seq<Vec3>, i: int, j: int) -> bool {
    &&& 0 <= j < ps.len()
    &&& j != i
    &&& pair_overlaps(ps, i, j)
    &&& forall|k: int| 0 <= k < j && k != i ==> !#[trigger] pair_overlaps(ps, i, k)
}

/// Body `i` collides with some other body.
pub open spec fn has_partner(ps: Seq<Vec3>, i: int) -> bool {
    exists|j: int| is_first_partner(ps, i, j)
}

/// The partner of body `i`, where it has one.
pub open spec fn first_partner(ps: Seq<Vec3>, i: int) -> int {
    choose|j: int| is_first_partner(ps, i, j)
}

/// Body `i` after the collision pass: with a partner it is colliding, lists
/// that partner alone and takes the contact normal against it; without one
/// it is not colliding, lists nothing and keeps its stale normal.
pub open spec fn refreshed(s: Seq<Body>, i: int) -> Body {
    let ps = positions(s);
    if has_partner(ps, i) {
        let j = first_partner(ps, i);
        Body {
            is_colliding: true,
            colliding_objects: seq![j],
            normal_vector: cubes_contact_normal(ps[i], ps[j]),
            ..s[i]
        }
    } else {
        Body { is_colliding: false, colliding_objects: Seq::empty(), ..s[i] }
    }
}

/// The bodies after the collision pass.
pub open spec fn collision_graph(s: Seq<Body>) -> Seq<Body> {
    Seq::new(s.len(), |i: int| refreshed(s, i))
}

/// The bodies after one simulation step of `dt` microseconds: the collision
/// pass over all of them, then the integration of each.
pub open spec fn ticked(s: Seq<Body>, dt: int) -> Seq<Body> {
    Seq::new(s.len(), |i: int| refreshed(s, i).integrated(dt))
}

/// The bodies after body `i` has taken its turn in the integration pass. A
/// body without colliding neighbours flies freely. One with neighbours
/// responds as `response` says: it bounces, or it and the first of its
/// neighbours take their common velocity.
pub open spec fn responded(s: Seq<Body>, i: int, dt: int, response: CollisionResponse) -> Seq<
    Body,
> {
    if s[i].colliding_objects.len() == 0 {
        s.update(i, s[i].free_flight(dt))
    } else {
        match response {
            CollisionResponse::Elastic => s.update(i, s[i].bounced(dt)),
            CollisionResponse::Inelastic => {
                let j = s[i].colliding_objects[0];
                s.update(i, s[i].merged_with(s[j], dt)).update(
                    j,
                    Body::merged_partner(s[j], s[i]),
                )
            },
        }
    }
}

/// The bodies after the first `k` of them have taken their turns, in list
/// order.
pub open spec fn responded_upto(s: Seq<Body>, k: int, dt: int, response: CollisionResponse) -> Seq<
    Body,
>
    decreases k,
{
    if k <= 0 {
        s
    } else {
        responded(responded_upto(s, k - 1, dt, response), k - 1, dt, response)
    }
}

/// The bodies after one simulation step of `dt` microseconds in which
/// colliding bodies respond as `response` says: the collision pass over all
/// of them, then the turn of each in list order.
pub open spec fn ticked_with(s: Seq<Body>, dt: int, response: CollisionResponse) -> Seq<Body> {
    responded_upto(collision_graph(s), s.len() as int, dt, response)
}

/// The length of the next step when `remaining` microseconds of a frame are
/// left.
pub open spec fn next_step(remaining: int) -> int {
    if remaining < FIXED_STEP {
        remaining
    } else {
        FIXED_STEP as int
    }
}

/// The bodies after a frame of `frame_time` microseconds, simulated in steps
/// of `FIXED_STEP` and a shorter last one.
pub open spec fn after_frame(s: Seq<Body>, frame_time: int) -> Seq<Body>
    decreases frame_time,
{
    if frame_time <= 0 {
        s
    } else {
        after_frame(ticked(s, next_step(frame_time)), frame_time - next_step(frame_time))
    }
}

/// Slot of the key G in a key table.
pub open spec fn push_key_slot() -> int {
    16
}

/// Slot of the key B in a key table.
pub open spec fn pull_key_slot() -> int {
    11
}

/// The force that the keys held down put on the first body: up and sideways
/// while G is held, down and sideways while B is held and G is not, none
/// while neither is held.
pub open spec fn selected_force(keys: Seq<bool>) -> Vec3 {
    if keys[push_key_slot()] {
        Vec3 { x: 10_000_000, y: 5_000_000, z: 0 }
    } else if keys[pull_key_slot()] {
        Vec3 { x: 10_000_000, y: (-10_000_000) as i32, z: 0 }
    } else {
        zero3()
    }
}

/// The bodies with `force` put on the first of them.
pub open spec fn with_force(s: Seq<Body>, force: Vec3) -> Seq<Body> {
    if s.len() > 0 {
        s.update(0, Body { force, ..s[0] })
    } else {
        s
    }
}

/// What is handed to the renderer: for each body, in order, its centre and
/// its colour.
pub open spec fn render_items(s: Seq<Body>) -> Seq<(Vec3, Vec3)> {
    Seq::new(
        s.len(),
        |i: int|
            (
                s[i].position,
                if s[i].is_colliding {
                    Vec3 { x: SCALE, y: 0, z: 0 }
                } else {
                    Vec3 { x: 0, y: SCALE, z: 0 }
                },
            ),
    )
}

/// What holds of body `i` after every collision pass: it does not list
/// itself, it lists bodies of the simulation only, and it is marked as
/// colliding exactly when it lists a body.
pub open spec fn links_sound(s: Seq<Body>, i: int) -> bool {
    &&& !s[i].colliding_objects.contains(i)
    &&& forall|k: int|
        0 <= k < s[i].colliding_objects.len() ==> 0 <= (#[trigger] s[i].colliding_objects[k])
            < s.len()
    &&& s[i].is_colliding == (s[i].colliding_objects.len() > 0)
}

/// `links_sound` holds of every body.
pub open spec fn graph_sound(s: Seq<Body>) -> bool {
    forall|i: int| 0 <= i < s.len() ==> #[trigger] links_sound(s, i)
}

/// The contact normal of every colliding body has length `SCALE`.
pub open spec fn normals_unit(s: Seq<Body>) -> bool {
    forall|i: int|
        0 <= i < s.len() && (#[trigger] s[i]).is_colliding ==> dot3(
            s[i].normal_vector,
            s[i].normal_vector,
        ) == SCALE * SCALE
}

/// A body has at most one partner.
pub proof fn lemma_partner_unique(ps: Seq<Vec3>, i: int, j1: int, j2: int)
    requires
        is_first_partner(ps, i, j1),
        is_first_partner(ps, i, j2),
    ensures
        j1 == j2,
{
}

/// A body that overlaps body `j` has a partner, and that partner comes no
/// later in the list than `j`.
pub proof fn lemma_partner_exists(ps: Seq<Vec3>, i: int, j: int)
    requires
        0 <= j < ps.len(),
        j != i,
        pair_overlaps(ps, i, j),
    ensures
        has_partner(ps, i),
        0 <= first_partner(ps, i) <= j,
        is_first_partner(ps, i, first_partner(ps, i)),
    decreases j,
{
    if exists|k: int| 0 <= k < j && k != i && pair_overlaps(ps, i, k) {
        let k = choose|k: int| 0 <= k < j && k != i && pair_overlaps(ps, i, k);
        lemma_partner_exists(ps, i, k);
    } else {
        assert(is_first_partner(ps, i, j));
    }
}

/// The collision pass is decided by the order of the list: of the bodies
/// that body `i` overlaps, the first in list order is recorded, alone. So
/// where `i` overlaps `j`, it is marked as colliding and lists one body,
/// which is `j` or comes before it.
pub proof fn lemma_first_overlap_recorded(s: Seq<Body>, i: int, j: int)
    requires
        0 <= i < s.len(),
        0 <= j < s.len(),
        j != i,
        cubes_overlap(s[i].position, s[j].position),
    ensures
        collision_graph(s)[i].is_colliding,
        collision_graph(s)[i].colliding_objects.len() == 1,
        collision_graph(s)[i].colliding_objects[0] <= j,
        is_first_partner(positions(s), i, collision_graph(s)[i].colliding_objects[0]),
{
    let ps = positions(s);
    assert(pair_overlaps(ps, i, j));
    lemma_partner_exists(ps, i, j);
}

/// No body collides with itself: after a collision pass no body lists its
/// own index.
pub proof fn lemma_no_self_collision(s: Seq<Body>, i: int)
    requires
        0 <= i < s.len(),
    ensures
        !collision_graph(s)[i].colliding_objects.contains(i),
{
    let ps = positions(s);
    let links = collision_graph(s)[i].colliding_objects;
    if has_partner(ps, i) {
        let j = first_partner(ps, i);
        assert(is_first_partner(ps, i, j));
        assert(links =~= seq![j]);
        if links.contains(i) {
            let k = choose|k: int| 0 <= k < links.len() && links[k] == i;
            assert(links[0] == j);
        }
    }
}

/// The collision pass leaves every body with sound links.
pub proof fn lemma_collision_graph_sound(s: Seq<Body>)
    ensures
        graph_sound(collision_graph(s)),
{
    let ps = positions(s);
    let g = collision_graph(s);
    assert forall|i: int| 0 <= i < g.len() implies #[trigger] links_sound(g, i) by {
        lemma_no_self_collision(s, i);
        if has_partner(ps, i) {
            let j = first_partner(ps, i);
            assert(is_first_partner(ps, i, j));
            assert(g[i].colliding_objects =~= seq![j]);
        }
    }
}

/// Within the world, the collision pass gives every colliding body a
/// contact normal of length `SCALE`.
pub proof fn lemma_contact_normals_unit(s: Seq<Body>)
    requires
        all_in_world(positions(s)),
    ensures
        normals_unit(collision_graph(s)),
{
    let ps = positions(s);
    let g = collision_graph(s);
    assert forall|i: int| 0 <= i < g.len() && (#[trigger] g[i]).is_colliding implies dot3(
        g[i].normal_vector,
        g[i].normal_vector,
    ) == SCALE * SCALE by {
        let j = first_partner(ps, i);
        assert(is_first_partner(ps, i, j));
        assert(in_world(ps[i]) && in_world(ps[j]));
        lemma_cube_contact_normal_is_unit(ps[i], ps[j]);
    }
}

/// A simulation step leaves every body valid and with sound links: the
/// integrator moves bodies and leaves their links as the collision pass
/// made them.
pub proof fn lemma_tick_sound(s: Seq<Body>, dt: int)
    requires
        all_wf(s),
    ensures
        all_wf(ticked(s, dt)),
        graph_sound(ticked(s, dt)),
        normals_unit(ticked(s, dt)),
{
    let g = collision_graph(s);
    let t = ticked(s, dt);
    assert(all_in_world(positions(s))) by {
        assert forall|i: int| 0 <= i < s.len() implies in_world(#[trigger] positions(s)[i]) by {
            assert(s[i].wf());
        }
    }
    lemma_collision_graph_sound(s);
    lemma_contact_normals_unit(s);
    assert forall|i: int| 0 <= i < t.len() implies (#[trigger] t[i]).wf() by {
        assert(s[i].wf());
    }
    assert forall|i: int| 0 <= i < t.len() implies #[trigger] links_sound(t, i) by {
        assert(links_sound(g, i));
        assert(t[i] == g[i].integrated(dt));
        assert(t[i].colliding_objects == g[i].colliding_objects);
    }
    assert forall|i: int| 0 <= i < t.len() && (#[trigger] t[i]).is_colliding implies dot3(
        t[i].normal_vector,
        t[i].normal_vector,
    ) == SCALE * SCALE by {
        assert(t[i] == g[i].integrated(dt));
        assert(g[i].is_colliding);
    }
}

/// A simulation step neither adds nor removes a body, and leaves every body
/// its identity and its mass.
pub proof fn lemma_tick_keeps_identity(s: Seq<Body>, dt: int, i: int)
    requires
        0 <= i < s.len(),
    ensures
        ticked(s, dt).len() == s.len(),
        ticked(s, dt)[i].id == s[i].id,
        ticked(s, dt)[i].mass == s[i].mass,
        ticked(s, dt)[i].force == s[i].force,
{
}

/// A frame neither adds nor removes a body, and leaves every body its
/// identity and its mass.
pub proof fn lemma_frame_keeps_identity(s: Seq<Body>, frame_time: int, i: int)
    requires
        0 <= i < s.len(),
    ensures
        after_frame(s, frame_time).len() == s.len(),
        after_frame(s, frame_time)[i].id == s[i].id,
        after_frame(s, frame_time)[i].mass == s[i].mass,
        after_frame(s, frame_time)[i].force == s[i].force,
    decreases frame_time,
{
    if frame_time > 0 {
        let dt = next_step(frame_time);
        lemma_tick_keeps_identity(s, dt, i);
        lemma_frame_keeps_identity(ticked(s, dt), frame_time - dt, i);
    }
}

/// A frame neither adds nor removes a body.
pub proof fn lemma_frame_keeps_count(s: Seq<Body>, frame_time: int)
    ensures
        after_frame(s, frame_time).len() == s.len(),
    decreases frame_time,
{
    if frame_time > 0 {
        let dt = next_step(frame_time);
        lemma_frame_keeps_count(ticked(s, dt), frame_time - dt);
    }
}

/// Bodies that can be told apart by their identities before a frame can be
/// told apart by them after it.
pub proof fn lemma_frame_keeps_ids_unique(s: Seq<Body>, frame_time: int)
    requires
        ids_unique(s),
    ensures
        ids_unique(after_frame(s, frame_time)),
{
    let t = after_frame(s, frame_time);
    assert forall|i: int, j: int| 0 <= i < t.len() && 0 <= j < t.len() && i != j implies (
    #[trigger] t[i]).id != (#[trigger] t[j]).id by {
        lemma_frame_keeps_count(s, frame_time);
        lemma_frame_keeps_identity(s, frame_time, i);
        lemma_frame_keeps_identity(s, frame_time, j);
        assert(s[i].id != s[j].id);
    }
}

/// Every state that a frame reaches from a valid state with sound links is
/// valid and has sound links.
pub proof fn lemma_frame_sound(s: Seq<Body>, frame_time: int)
    requires
        all_wf(s),
        graph_sound(s),
        normals_unit(s),
    ensures
        all_wf(after_frame(s, frame_time)),
        graph_sound(after_frame(s, frame_time)),
        normals_unit(after_frame(s, frame_time)),
    decreases frame_time,
{
    if frame_time > 0 {
        lemma_tick_sound(s, next_step(frame_time));
        lemma_frame_sound(ticked(s, next_step(frame_time)), frame_time - next_step(frame_time));
    }
}

/// While every body responds elastically, the turns do not touch each
/// other: after the first `k` turns the first `k` bodies are integrated and
/// the others are as they were.
proof fn lemma_elastic_turns(g: Seq<Body>, k: int, dt: int)
    requires
        0 <= k <= g.len(),
    ensures
        responded_upto(g, k, dt, CollisionResponse::Elastic) == Seq::new(
            g.len(),
            |i: int|
                if i < k {
                    g[i].integrated(dt)
                } else {
                    g[i]
                },
        ),
    decreases k,
{
    let target = Seq::new(
        g.len(),
        |i: int|
            if i < k {
                g[i].integrated(dt)
            } else {
                g[i]
            },
    );
    if k > 0 {
        lemma_elastic_turns(g, k - 1, dt);
        let before = responded_upto(g, k - 1, dt, CollisionResponse::Elastic);
        assert(before[k - 1] == g[k - 1]);
        assert(responded_upto(g, k, dt, CollisionResponse::Elastic) =~= target);
    } else {
        assert(responded_upto(g, k, dt, CollisionResponse::Elastic) =~= target);
    }
}

/// The elastic response is the default: a step with it is the plain step.
pub proof fn lemma_elastic_is_default(s: Seq<Body>, dt: int)
    ensures
        ticked_with(s, dt, CollisionResponse::Elastic) == ticked(s, dt),
{
    let g = collision_graph(s);
    lemma_elastic_turns(g, g.len() as int, dt);
    assert(ticked_with(s, dt, CollisionResponse::Elastic) =~= ticked(s, dt));
}

/// The first other body that `cubes[i]` overlaps, with the contact normal.
fn find_partner(cubes: &Vec<CubeObject>, i: usize) -> (found: Option<(usize, Vec3)>)
    requires
        i < cubes.len(),
    ensures
        match found {
            Some((j, normal)) => {
                &&& is_first_partner(positions(models(cubes@)), i as int, j as int)
                &&& normal == cubes_contact_normal(cubes[i as int].position, cubes[j as int].position)
            },
            None => !has_partner(positions(models(cubes@)), i as int),
        },
{
    let ghost ps = positions(models(cubes@));
    let main_verts = cubes[i].get_verts();
    let cube_len = cubes.len();
    for j in 0..cube_len
        invariant
            i < cube_len == cubes.len(),
            ps == positions(models(cubes@)),
            main_verts@ == cube_triangles(ps[i as int]),
            forall|k: int| 0 <= k < j && k != i ==> !#[trigger] pair_overlaps(ps, i as int, k),
    {
        if i != j {
            let other_verts = cubes[j].get_verts();
            let (is_colliding, normal_vector) = test_collision_3d(
                main_verts.as_slice(),
                3,
                other_verts.as_slice(),
                3,
            );
            assert(is_colliding == pair_overlaps(ps, i as int, j as int));
            if is_colliding {
                match normal_vector {
                    Some(normal) => {
                        return Some((j, normal));
                    },
                    None => {},
                }
            }
        }
    }
    assert forall|j: int| !is_first_partner(ps, i as int, j) by {
        if is_first_partner(ps, i as int, j) {
            assert(!pair_overlaps(ps, i as int, j));
        }
    }
    None
}

/// The collision pass: records for every body the first other body, in list
/// order, that it overlaps, with the contact normal against it, and whether
/// there was one. A body is never its own partner, and only the first
/// partner is recorded.
pub fn calc_colliding(cubes: &mut Vec<CubeObject>)
    ensures
        models(final(cubes)@) == collision_graph(models(old(cubes)@)),
        graph_sound(models(final(cubes)@)),
        all_in_world(positions(models(old(cubes)@))) ==> normals_unit(models(final(cubes)@)),
{
    let ghost before = models(cubes@);
    let cube_len = cubes.len();
    for i in 0..cube_len
        invariant
            cube_len == cubes.len() == before.len(),
            before == models(old(cubes)@),
            positions(models(cubes@)) == positions(before),
            forall|k: int| 0 <= k < i ==> (#[trigger] cubes[k])@ == refreshed(before, k),
            forall|k: int| i <= k < cube_len ==> (#[trigger] cubes[k])@ == before[k],
    {
        let found = find_partner(cubes, i);
        let ghost ps = positions(before);
        let ghost during = cubes@;
        match found {
            Some((j, normal)) => {
                let mut partners: Vec<usize> = Vec::new();
                partners.push(j);
                cubes[i].colliding_objects = partners;
                cubes[i].normal_vector = normal;
                cubes[i].is_colliding = true;
                proof {
                    lemma_partner_unique(ps, i as int, j as int, first_partner(ps, i as int));
                    assert(ps[i as int] == during[i as int].position);
                    assert(ps[j as int] == during[j as int].position);
                    assert(cubes[i as int]@.colliding_objects =~= seq![j as int]);
                }
            },
            None => {
                cubes[i].colliding_objects = Vec::new();
                cubes[i].is_colliding = false;
                proof {
                    assert(cubes[i as int]@.colliding_objects =~= Seq::empty());
                }
            },
        }
        proof {
            assert(cubes[i as int]@ == refreshed(before, i as int));
            assert forall|k: int| 0 <= k < i + 1 implies (#[trigger] cubes[k])@ == refreshed(
                before,
                k,
            ) by {
                if k < i {
                    assert(cubes[k] == during[k]);
                }
            }
            assert forall|k: int| i + 1 <= k < cube_len implies (#[trigger] cubes[k])@
                == before[k] by {
                assert(cubes[k] == during[k]);
            }
            assert(positions(models(cubes@)) =~= positions(before)) by {
                assert forall|k: int| 0 <= k < cube_len implies positions(models(cubes@))[k]
                    == positions(before)[k] by {
                    if k != i {
                        assert(cubes[k] == during[k]);
                    }
                    assert(positions(models(during))[k] == positions(before)[k]);
                }
            }
        }
    }
    assert(models(cubes@) =~= collision_graph(before));
    proof {
        lemma_collision_graph_sound(before);
        if all_in_world(positions(before)) {
            lemma_contact_normals_unit(before);
        }
    }
}

/// The slot of the key G in a key table that is indexed by winit's
/// `VirtualKeyCode`. The enum numbers its variants from zero in the order of
/// their declaration, which puts `G` at 16.
#[verifier::external_body]
fn key_g_slot() -> (slot: usize)
    ensures
        slot == push_key_slot(),
{
    winit::event::VirtualKeyCode::G as usize
}

/// The slot of the key B in a key table that is indexed by winit's
/// `VirtualKeyCode`. The enum numbers its variants from zero in the order of
/// their declaration, which puts `B` at 11.
#[verifier::external_body]
fn key_b_slot() -> (slot: usize)
    ensures
        slot == pull_key_slot(),
{
    winit::event::VirtualKeyCode::B as usize
}

impl CubeGameState {
    /// The opening state: two cubes of mass one half at rest, the first at
    /// the origin, the second up and to the side of it.
    pub fn new() -> (state: CubeGameState)
        ensures
            state@ == seq![
                Body::at_rest(0, zero3(), 500),
                Body::at_rest(1, Vec3 { x: 2000, y: 2300, z: 0 }, 500),
            ],
            all_wf(state@),
            ids_unique(state@),
            graph_sound(state@),
            normals_unit(state@),
    {
        let zero = Vec3 { x: 0, y: 0, z: 0 };
        let mut cubes: Vec<CubeObject> = Vec::new();
        let cube = CubeObject {
            id: 0,
            position: zero,
            is_colliding: false,
            colliding_objects: Vec::new(),
            normal_vector: zero,
            force: zero,
            velocity: zero,
            mass: 500,
        };
        assert(cube@.colliding_objects =~= Seq::empty());
        cubes.push(cube);
        let cube = CubeObject {
            id: 1,
            position: Vec3 { x: 2000, y: 2300, z: 0 },
            is_colliding: false,
            colliding_objects: Vec::new(),
            normal_vector: zero,
            force: zero,
            velocity: zero,
            mass: 500,
        };
        assert(cube@.colliding_objects =~= Seq::empty());
        cubes.push(cube);
        let state = CubeGameState { cubes };
        assert(state@ =~= seq![
            Body::at_rest(0, zero3(), 500),
            Body::at_rest(1, Vec3 { x: 2000, y: 2300, z: 0 }, 500),
        ]);
        assert(links_sound(state@, 0) && links_sound(state@, 1));
        state
    }

    /// Sets the force on the first body from the keys held down. Nothing
    /// else changes, and a state without bodies is left as it is.
    pub fn handle_keyboard_input(&mut self, now_keys: &[bool; KEY_SLOTS])
        ensures
            final(self)@ == with_force(old(self)@, selected_force(now_keys@)),
    {
        if self.cubes.len() == 0 {
            return ;
        }
        let force = if now_keys[key_g_slot()] {
            Vec3 { x: 10_000_000, y: 5_000_000, z: 0 }
        } else if now_keys[key_b_slot()] {
            Vec3 { x: 10_000_000, y: -10_000_000, z: 0 }
        } else {
            Vec3 { x: 0, y: 0, z: 0 }
        };
        self.cubes[0].force = force;
        assert(self@ =~= with_force(old(self)@, selected_force(now_keys@)));
    }

    /// One simulation step of `delta_time` microseconds: the collision pass
    /// over all bodies, then the integration of each.
    pub fn integrate(&mut self, delta_time: u32)
        requires
            all_wf(old(self)@),
        ensures
            final(self)@ == ticked(old(self)@, delta_time as int),
            all_wf(final(self)@),
            graph_sound(final(self)@),
            normals_unit(final(self)@),
    {
        let ghost before = self@;
        calc_colliding(&mut self.cubes);
        let ghost graph = self@;
        assert(graph.len() == before.len());
        let cube_len = self.cubes.len();
        for i in 0..cube_len
            invariant
                cube_len == self.cubes.len() == before.len(),
                graph == collision_graph(before),
                all_wf(before),
                forall|k: int|
                    0 <= k < i ==> (#[trigger] self.cubes[k])@ == graph[k].integrated(
                        delta_time as int,
                    ) && self.cubes[k].wf(),
                forall|k: int| i <= k < cube_len ==> (#[trigger] self.cubes[k])@ == graph[k],
        {
            let ghost during = self.cubes@;
            assert(before[i as int].wf());
            self.cubes[i].integrate(delta_time);
            proof {
                assert forall|k: int| 0 <= k < i + 1 implies (#[trigger] self.cubes[k])@
                    == graph[k].integrated(delta_time as int) && self.cubes[k].wf() by {
                    if k < i {
                        assert(self.cubes[k] == during[k]);
                    }
                }
                assert forall|k: int| i + 1 <= k < cube_len implies (#[trigger] self.cubes[k])@
                    == graph[k] by {
                    assert(self.cubes[k] == during[k]);
                }
            }
        }
        assert(self@ =~= ticked(before, delta_time as int));
        proof {
            lemma_tick_sound(before, delta_time as int);
        }
    }

    /// One simulation step of `delta_time` microseconds in which colliding
    /// bodies respond as `response` says. With the elastic response this is
    /// `integrate`. With the inelastic one, each colliding body in its turn
    /// shares its momentum with the first of its neighbours, so the turns of
    /// later bodies see the velocities that earlier turns left.
    pub fn integrate_with(&mut self, delta_time: u32, response: CollisionResponse)
        requires
            all_wf(old(self)@),
        ensures
            final(self)@ == ticked_with(old(self)@, delta_time as int, response),
            all_wf(final(self)@),
            graph_sound(final(self)@),
            normals_unit(final(self)@),
    {
        let ghost before = self@;
        let ghost dt = delta_time as int;
        match response {
            CollisionResponse::Elastic => {
                self.integrate(delta_time);
                proof {
                    lemma_elastic_is_default(before, dt);
                }
            },
            CollisionResponse::Inelastic => {
                assert(all_in_world(positions(before))) by {
                    assert forall|i: int| 0 <= i < before.len() implies in_world(
                        #[trigger] positions(before)[i],
                    ) by {
                        assert(before[i].wf());
                    }
                }
                calc_colliding(&mut self.cubes);
                let ghost graph = self@;
                assert(graph.len() == before.len());
                assert(all_wf(graph)) by {
                    assert forall|i: int| 0 <= i < graph.len() implies (#[trigger] graph[i]).wf() by {
                        assert(before[i].wf());
                    }
                }
                let cube_len = self.cubes.len();
                for i in 0..cube_len
                    invariant
                        cube_len == self.cubes.len() == graph.len(),
                        dt == delta_time,
                        response == CollisionResponse::Inelastic,
                        graph_sound(graph),
                        normals_unit(graph),
                        self@ == responded_upto(graph, i as int, dt, response),
                        all_wf(self@),
                        forall|k: int|
                            0 <= k < cube_len ==> (#[trigger] self@[k]).colliding_objects
                                == graph[k].colliding_objects && self@[k].is_colliding
                                == graph[k].is_colliding && self@[k].normal_vector
                                == graph[k].normal_vector,
                {
                    let ghost during = self@;
                    assert(links_sound(graph, i as int));
                    assert(during[i as int].wf());
                    assert(during[i as int].colliding_objects == graph[i as int].colliding_objects);
                    if self.cubes[i].colliding_objects.len() > 0 {
                        let j = self.cubes[i].colliding_objects[0];
                        assert(j as int == during[i as int].colliding_objects[0]);
                        assert(j < cube_len && j != i);
                        assert(during[j as int].wf());
                        let velocity = merge_velocity(
                            self.cubes[i].velocity,
                            self.cubes[i].mass,
                            self.cubes[j].velocity,
                            self.cubes[j].mass,
                        );
                        let position = displace(self.cubes[i].position, velocity, delta_time);
                        self.cubes[i].velocity = velocity;
                        self.cubes[i].position = position;
                        self.cubes[j].velocity = velocity;
                    } else {
                        self.cubes[i].integrate(delta_time);
                    }
                    proof {
                        let after = responded(during, i as int, dt, response);
                        assert(self@ =~= after) by {
                            assert forall|k: int| 0 <= k < cube_len implies self@[k] == after[k] by {
                                assert(self@[k] == self.cubes[k]@);
                            }
                        }
                        assert forall|k: int| 0 <= k < cube_len implies (#[trigger] self@[k]).wf() by {
                            assert(during[k].wf());
                        }
                    }
                }
                proof {
                    assert forall|k: int| 0 <= k < cube_len implies #[trigger] links_sound(
                        self@,
                        k,
                    ) by {
                        assert(links_sound(graph, k));
                    }
                    assert forall|k: int|
                        0 <= k < cube_len && (#[trigger] self@[k]).is_colliding implies dot3(
                        self@[k].normal_vector,
                        self@[k].normal_vector,
                    ) == SCALE * SCALE by {
                        assert(graph[k].is_colliding);
                    }
                }
            },
        }
    }

    /// Simulates a frame of `frame_time` microseconds in steps of
    /// `FIXED_STEP`, the last step taking what is left.
    pub fn run_frame(&mut self, frame_time: u64)
        requires
            all_wf(old(self)@),
        ensures
            final(self)@ == after_frame(old(self)@, frame_time as int),
            all_wf(final(self)@),
            (graph_sound(old(self)@) && normals_unit(old(self)@)) || frame_time > 0
                ==> graph_sound(final(self)@) && normals_unit(final(self)@),
    {
        let mut remaining = frame_time;
        while remaining > 0
            invariant
                all_wf(self@),
                (graph_sound(old(self)@) && normals_unit(old(self)@)) || remaining < frame_time
                    ==> graph_sound(self@) && normals_unit(self@),
                remaining <= frame_time,
                after_frame(self@, remaining as int) == after_frame(
                    old(self)@,
                    frame_time as int,
                ),
            decreases remaining,
        {
            let delta_time: u32 = if remaining < FIXED_STEP as u64 {
                remaining as u32
            } else {
                FIXED_STEP
            };
            remaining = remaining - delta_time as u64;
            self.integrate(delta_time);
        }
    }

    /// The centre and the colour of every body, in order, for drawing.
    pub fn draw_list(&self) -> (items: Vec<(Vec3, Vec3)>)
        ensures
            items@ == render_items(self@),
    {
        let mut items: Vec<(Vec3, Vec3)> = Vec::new();
        let cube_len = self.cubes.len();
        for i in 0..cube_len
            invariant
                cube_len == self.cubes.len(),
                items@ == render_items(self@).take(i as int),
        {
            items.push((self.cubes[i].position, self.cubes[i].color()));
            assert(items@ =~= render_items(self@).take(i + 1));
        }
        assert(render_items(self@).take(cube_len as int) =~= render_items(self@));
        items
    }
}

} // verus!
