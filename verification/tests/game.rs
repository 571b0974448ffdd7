use cube_physics::body::{CollisionResponse, CubeObject};
use cube_physics::game::{calc_colliding, CubeGameState, FIXED_STEP, KEY_SLOTS};
use cube_physics::vector::{vec3, Vec3};
use winit::event::VirtualKeyCode;

fn cube(id: i32, x: i32, y: i32, z: i32) -> CubeObject {
    CubeObject::new(id, vec3(x, y, z), 500).unwrap()
}

fn state_of(centres: &[(i32, i32, i32)]) -> CubeGameState {
    let mut cubes = vec![];
    for (id, (x, y, z)) in centres.iter().enumerate() {
        cubes.push(cube(id as i32, *x, *y, *z));
    }
    CubeGameState { cubes }
}

fn snapshot(state: &CubeGameState) -> Vec<(Vec3, Vec3, Vec3, bool, Vec<usize>)> {
    state
        .cubes
        .iter()
        .map(|c| (c.position, c.velocity, c.normal_vector, c.is_colliding, c.colliding_objects.clone()))
        .collect()
}

fn keys_with(pressed: &[VirtualKeyCode]) -> [bool; 255] {
    let mut keys = [false; 255];
    for key in pressed {
        keys[*key as usize] = true;
    }
    keys
}

#[test]
fn opening_state() {
    let state = CubeGameState::new();
    assert_eq!(state.cubes.len(), 2);
    assert_eq!(state.cubes[0].id, 0);
    assert_eq!(state.cubes[1].id, 1);
    assert_eq!(state.cubes[0].position, vec3(0, 0, 0));
    assert_eq!(state.cubes[1].position, vec3(2000, 2300, 0));
    for c in state.cubes.iter() {
        assert_eq!(c.mass, 500);
        assert_eq!(c.velocity, vec3(0, 0, 0));
        assert_eq!(c.force, vec3(0, 0, 0));
        assert_eq!(c.normal_vector, vec3(0, 0, 0));
        assert!(!c.is_colliding);
        assert!(c.colliding_objects.is_empty());
    }
}

#[test]
fn opening_state_is_at_peace() {
    let mut state = CubeGameState::new();
    state.run_frame(1_000_000);
    assert_eq!(state.cubes[0].position, vec3(0, 0, 0));
    assert_eq!(state.cubes[1].position, vec3(2000, 2300, 0));
    assert!(!state.cubes[0].is_colliding);
    assert!(!state.cubes[1].is_colliding);
}

#[test]
fn key_g_pushes_the_first_body() {
    let mut state = CubeGameState::new();
    state.handle_keyboard_input(&keys_with(&[VirtualKeyCode::G]));
    assert_eq!(state.cubes[0].force, vec3(10_000_000, 5_000_000, 0));
    assert_eq!(state.cubes[1].force, vec3(0, 0, 0));
}

#[test]
fn key_b_pulls_the_first_body() {
    let mut state = CubeGameState::new();
    state.handle_keyboard_input(&keys_with(&[VirtualKeyCode::B]));
    assert_eq!(state.cubes[0].force, vec3(10_000_000, -10_000_000, 0));
    assert_eq!(state.cubes[1].force, vec3(0, 0, 0));
}

#[test]
fn key_g_comes_before_key_b() {
    let mut state = CubeGameState::new();
    state.handle_keyboard_input(&keys_with(&[VirtualKeyCode::B, VirtualKeyCode::G]));
    assert_eq!(state.cubes[0].force, vec3(10_000_000, 5_000_000, 0));
}

#[test]
fn releasing_the_keys_takes_the_force_away() {
    let mut state = CubeGameState::new();
    state.handle_keyboard_input(&keys_with(&[VirtualKeyCode::G]));
    state.handle_keyboard_input(&keys_with(&[]));
    assert_eq!(state.cubes[0].force, vec3(0, 0, 0));
    state.handle_keyboard_input(&keys_with(&[VirtualKeyCode::B]));
    state.handle_keyboard_input(&keys_with(&[VirtualKeyCode::A, VirtualKeyCode::Escape, VirtualKeyCode::H]));
    assert_eq!(state.cubes[0].force, vec3(0, 0, 0));
}

#[test]
fn only_the_slots_of_g_and_b_are_read() {
    assert_eq!(KEY_SLOTS, 255);
    for slot in 0..255 {
        let mut keys = [false; 255];
        keys[slot] = true;
        let mut state = CubeGameState::new();
        state.cubes[0].force = vec3(1, 2, 3);
        state.handle_keyboard_input(&keys);
        let expected = if slot == VirtualKeyCode::G as usize {
            vec3(10_000_000, 5_000_000, 0)
        } else if slot == VirtualKeyCode::B as usize {
            vec3(10_000_000, -10_000_000, 0)
        } else {
            vec3(0, 0, 0)
        };
        assert_eq!(state.cubes[0].force, expected);
    }
}

#[test]
fn keys_change_nothing_but_the_force() {
    let mut state = state_of(&[(0, 0, 0), (500, 0, 0)]);
    state.cubes[0].velocity = vec3(1, 2, 3);
    calc_colliding(&mut state.cubes);
    let before = snapshot(&state);
    state.handle_keyboard_input(&keys_with(&[VirtualKeyCode::G]));
    assert_eq!(snapshot(&state), before);
    assert_eq!(state.cubes[0].mass, 500);
}

#[test]
fn keys_on_a_state_without_bodies() {
    let mut state = CubeGameState { cubes: vec![] };
    state.handle_keyboard_input(&keys_with(&[VirtualKeyCode::G]));
    assert!(state.cubes.is_empty());
}

#[test]
fn first_overlapping_body_in_list_order_is_recorded() {
    // A overlaps both B and C.
    let mut state = state_of(&[(0, 0, 0), (500, 0, 0), (0, 500, 0)]);
    calc_colliding(&mut state.cubes);
    assert!(state.cubes[0].is_colliding);
    assert_eq!(state.cubes[0].colliding_objects, vec![1]);
    assert_eq!(state.cubes[0].normal_vector, vec3(-1000, 0, 0));
    assert!(state.cubes[1].is_colliding);
    assert_eq!(state.cubes[1].colliding_objects, vec![0]);
    assert!(state.cubes[2].is_colliding);
    assert_eq!(state.cubes[2].colliding_objects, vec![0]);
    assert_eq!(state.cubes[2].normal_vector, vec3(0, -1000, 0));
}

#[test]
fn list_order_decides_not_distance() {
    // C is nearer to A than B is, yet B comes first.
    let mut state = state_of(&[(0, 0, 0), (900, 0, 0), (0, 100, 0)]);
    calc_colliding(&mut state.cubes);
    assert_eq!(state.cubes[0].colliding_objects, vec![1]);
    // With the two swapped, the other is recorded.
    let mut state = state_of(&[(0, 0, 0), (0, 100, 0), (900, 0, 0)]);
    calc_colliding(&mut state.cubes);
    assert_eq!(state.cubes[0].colliding_objects, vec![1]);
    assert_eq!(state.cubes[0].normal_vector, vec3(0, -1000, 0));
}

#[test]
fn partner_may_come_later_in_the_list() {
    let mut state = state_of(&[(9000, 0, 0), (0, 0, 0), (5000, 5000, 0), (0, 0, 700)]);
    calc_colliding(&mut state.cubes);
    assert_eq!(state.cubes[0].colliding_objects, Vec::<usize>::new());
    assert_eq!(state.cubes[1].colliding_objects, vec![3]);
    assert_eq!(state.cubes[2].colliding_objects, Vec::<usize>::new());
    assert_eq!(state.cubes[3].colliding_objects, vec![1]);
    assert_eq!(state.cubes[1].normal_vector, vec3(0, 0, 1000));
}

#[test]
fn no_body_collides_with_itself() {
    let layouts: Vec<Vec<(i32, i32, i32)>> = vec![
        vec![(0, 0, 0)],
        vec![(0, 0, 0), (0, 0, 0)],
        vec![(0, 0, 0), (500, 0, 0), (0, 500, 0)],
        vec![(0, 0, 0), (5000, 0, 0), (10_000, 0, 0), (10_500, 0, 0)],
        vec![(7, 7, 7), (7, 7, 7), (7, 7, 7), (7, 7, 7)],
    ];
    for layout in layouts {
        let mut state = state_of(&layout);
        for _ in 0..3 {
            calc_colliding(&mut state.cubes);
            for (i, c) in state.cubes.iter().enumerate() {
                assert!(!c.colliding_objects.contains(&i));
                assert!(c.colliding_objects.len() <= 1);
                assert!(c.colliding_objects.iter().all(|j| *j < state.cubes.len()));
                assert_eq!(c.is_colliding, !c.colliding_objects.is_empty());
            }
            state.integrate(FIXED_STEP);
            for (i, c) in state.cubes.iter().enumerate() {
                assert!(!c.colliding_objects.contains(&i));
                assert_eq!(c.is_colliding, !c.colliding_objects.is_empty());
            }
        }
    }
}

#[test]
fn a_lone_body_collides_with_nothing() {
    let mut state = state_of(&[(0, 0, 0)]);
    calc_colliding(&mut state.cubes);
    assert!(!state.cubes[0].is_colliding);
    assert!(state.cubes[0].colliding_objects.is_empty());
    let mut none: Vec<CubeObject> = vec![];
    calc_colliding(&mut none);
    assert!(none.is_empty());
}

#[test]
fn the_collision_pass_starts_afresh() {
    let mut state = state_of(&[(0, 0, 0), (9000, 0, 0)]);
    state.cubes[0].colliding_objects = vec![1, 1, 0];
    state.cubes[0].is_colliding = true;
    state.cubes[0].normal_vector = vec3(0, 1000, 0);
    state.cubes[0].velocity = vec3(4, 5, 6);
    calc_colliding(&mut state.cubes);
    assert!(state.cubes[0].colliding_objects.is_empty());
    assert!(!state.cubes[0].is_colliding);
    // The normal of a body that no longer collides is kept, stale.
    assert_eq!(state.cubes[0].normal_vector, vec3(0, 1000, 0));
    assert_eq!(state.cubes[0].velocity, vec3(4, 5, 6));
    assert_eq!(state.cubes[0].position, vec3(0, 0, 0));
}

#[test]
fn contact_normals_have_length_one() {
    let mut state = state_of(&[(0, 0, 0), (100, 900, -300), (50, 1700, 0), (0, 0, 999)]);
    calc_colliding(&mut state.cubes);
    for c in state.cubes.iter() {
        assert!(c.is_colliding);
        let n = c.normal_vector;
        assert_eq!(n.x as i64 * n.x as i64 + n.y as i64 * n.y as i64 + n.z as i64 * n.z as i64, 1_000_000);
    }
}

#[test]
fn a_step_is_the_collision_pass_and_then_the_integration() {
    let mut stepped = state_of(&[(0, 0, 0), (0, 951, 0), (8000, 0, 0)]);
    stepped.cubes[1].velocity = vec3(0, -5000, 0);
    stepped.cubes[2].velocity = vec3(-3000, 0, 0);
    stepped.cubes[2].force = vec3(0, 0, 10_000);
    let mut by_hand = state_of(&[(0, 0, 0), (0, 951, 0), (8000, 0, 0)]);
    by_hand.cubes[1].velocity = vec3(0, -5000, 0);
    by_hand.cubes[2].velocity = vec3(-3000, 0, 0);
    by_hand.cubes[2].force = vec3(0, 0, 10_000);

    stepped.integrate(FIXED_STEP);
    calc_colliding(&mut by_hand.cubes);
    for c in by_hand.cubes.iter_mut() {
        c.integrate(FIXED_STEP);
    }
    assert_eq!(snapshot(&stepped), snapshot(&by_hand));
    assert_eq!(stepped.cubes[1].velocity, vec3(0, 5000, 0));
    assert_eq!(stepped.cubes[1].position, vec3(0, 1034, 0));
    assert_eq!(stepped.cubes[2].position, vec3(7950, 0, 0));
    assert_eq!(stepped.cubes[2].velocity, vec3(-3000, 0, 333));
}

#[test]
fn a_falling_cube_bounces_off_a_resting_one() {
    let mut state = state_of(&[(0, 0, 0), (0, 1200, 0)]);
    state.cubes[1].velocity = vec3(0, -5000, 0);
    let heights = [1117, 1034, 951, 1034, 1117, 1200];
    let speeds = [-5000, -5000, -5000, 5000, 5000, 5000];
    for step in 0..6 {
        state.integrate(FIXED_STEP);
        assert_eq!(state.cubes[1].position, vec3(0, heights[step], 0));
        assert_eq!(state.cubes[1].velocity, vec3(0, speeds[step], 0));
        assert_eq!(state.cubes[1].is_colliding, step == 3);
        assert_eq!(state.cubes[0].is_colliding, step == 3);
        assert_eq!(state.cubes[0].position, vec3(0, 0, 0));
    }
    assert_eq!(state.cubes[1].normal_vector, vec3(0, -1000, 0));
}

#[test]
fn a_frame_is_cut_into_fixed_steps() {
    assert_eq!(FIXED_STEP, 16_667);
    let start = |s: &mut CubeGameState| {
        s.cubes[0].velocity = vec3(700, 0, 0);
        s.cubes[0].force = vec3(0, -10_000, 0);
        s.cubes[1].velocity = vec3(0, -5000, 0);
    };
    let mut framed = state_of(&[(0, 0, 0), (0, 1100, 0)]);
    start(&mut framed);
    let mut stepped = state_of(&[(0, 0, 0), (0, 1100, 0)]);
    start(&mut stepped);

    framed.run_frame(40_000);
    stepped.integrate(16_667);
    stepped.integrate(16_667);
    stepped.integrate(6_666);
    assert_eq!(snapshot(&framed), snapshot(&stepped));
}

#[test]
fn a_frame_of_one_step() {
    let mut framed = state_of(&[(0, 0, 0), (0, 900, 0)]);
    let mut stepped = state_of(&[(0, 0, 0), (0, 900, 0)]);
    framed.run_frame(16_667);
    stepped.integrate(16_667);
    assert_eq!(snapshot(&framed), snapshot(&stepped));
    assert!(framed.cubes[0].is_colliding);

    let mut framed = state_of(&[(0, 0, 0), (0, 900, 0)]);
    let mut stepped = state_of(&[(0, 0, 0), (0, 900, 0)]);
    framed.run_frame(16_668);
    stepped.integrate(16_667);
    stepped.integrate(1);
    assert_eq!(snapshot(&framed), snapshot(&stepped));
}

#[test]
fn a_frame_of_no_time_runs_no_step() {
    let mut state = state_of(&[(0, 0, 0), (0, 900, 0)]);
    state.cubes[0].velocity = vec3(1000, 0, 0);
    state.run_frame(0);
    // Not even the collision pass has run.
    assert!(!state.cubes[0].is_colliding);
    assert_eq!(state.cubes[0].position, vec3(0, 0, 0));
}

#[test]
fn a_second_of_free_fall() {
    let mut state = state_of(&[(0, 0, 0)]);
    // A tenth of the mass as force gives a tenth of a unit per second squared.
    state.cubes[0].force = vec3(0, -50, 0);
    state.run_frame(1_000_000);
    // Sixty steps: fifty-nine of 16667 and one of 16647 microseconds.
    // Each adds trunc(-100 * dt / 1e6) = -1 to the velocity.
    assert_eq!(state.cubes[0].velocity, vec3(0, -60, 0));
    assert_eq!(state.cubes[0].position, vec3(0, 0, 0));
}

#[test]
fn what_is_drawn() {
    let mut state = state_of(&[(0, 0, 0), (500, 0, 0), (0, 9000, 0)]);
    assert_eq!(
        state.draw_list(),
        vec![
            (vec3(0, 0, 0), vec3(0, 1000, 0)),
            (vec3(500, 0, 0), vec3(0, 1000, 0)),
            (vec3(0, 9000, 0), vec3(0, 1000, 0)),
        ]
    );
    calc_colliding(&mut state.cubes);
    assert_eq!(
        state.draw_list(),
        vec![
            (vec3(0, 0, 0), vec3(1000, 0, 0)),
            (vec3(500, 0, 0), vec3(1000, 0, 0)),
            (vec3(0, 9000, 0), vec3(0, 1000, 0)),
        ]
    );
    assert_eq!(CubeGameState { cubes: vec![] }.draw_list(), vec![]);
}

#[test]
fn elastic_response_is_the_default() {
    let build = || {
        let mut s = state_of(&[(0, 0, 0), (0, 951, 0), (8000, 0, 0)]);
        s.cubes[1].velocity = vec3(0, -5000, 0);
        s.cubes[2].force = vec3(0, 0, 10_000);
        s
    };
    let mut plain = build();
    let mut chosen = build();
    for _ in 0..5 {
        plain.integrate(FIXED_STEP);
        chosen.integrate_with(FIXED_STEP, CollisionResponse::Elastic);
        assert_eq!(snapshot(&plain), snapshot(&chosen));
    }
}

#[test]
fn inelastic_response_shares_the_momentum() {
    let mut state = state_of(&[(0, 0, 0), (900, 0, 0)]);
    state.cubes[0].velocity = vec3(4000, 0, 0);
    state.cubes[1].mass = 1500;
    state.integrate_with(100_000, CollisionResponse::Inelastic);
    assert_eq!(state.cubes[0].velocity, vec3(1000, 0, 0));
    assert_eq!(state.cubes[1].velocity, vec3(1000, 0, 0));
    assert_eq!(state.cubes[0].position, vec3(100, 0, 0));
    assert_eq!(state.cubes[1].position, vec3(1000, 0, 0));
    assert_eq!(state.cubes[0].colliding_objects, vec![1]);
    assert_eq!(state.cubes[1].colliding_objects, vec![0]);
}

#[test]
fn inelastic_turns_follow_the_list_order() {
    let mut state = state_of(&[(0, 0, 0), (900, 0, 0), (1800, 0, 0), (9000, 0, 0)]);
    state.cubes[0].velocity = vec3(6000, 0, 0);
    state.cubes[2].velocity = vec3(-3000, 600, 0);
    state.cubes[3].velocity = vec3(0, 1000, 0);
    state.cubes[3].force = vec3(0, -5000, 0);
    state.cubes[0].mass = 1000;
    state.cubes[1].mass = 1000;
    state.cubes[2].mass = 2000;
    state.integrate_with(100_000, CollisionResponse::Inelastic);
    // The first body and the second share 6 between them; the third then
    // shares its own with what that left the second.
    assert_eq!(state.cubes[0].velocity, vec3(3000, 0, 0));
    assert_eq!(state.cubes[1].velocity, vec3(-1000, 400, 0));
    assert_eq!(state.cubes[2].velocity, vec3(-1000, 400, 0));
    assert_eq!(state.cubes[0].position, vec3(300, 0, 0));
    assert_eq!(state.cubes[1].position, vec3(1200, 0, 0));
    assert_eq!(state.cubes[2].position, vec3(1700, 40, 0));
    // The fourth touches nothing and flies freely.
    assert_eq!(state.cubes[3].position, vec3(9000, 100, 0));
    assert_eq!(state.cubes[3].velocity, vec3(0, 0, 0));
    assert!(!state.cubes[3].is_colliding);
}

#[test]
fn responses_compare_and_copy() {
    let r = CollisionResponse::Inelastic;
    let q = r;
    assert_eq!(r, q);
    assert_ne!(CollisionResponse::Elastic, CollisionResponse::Inelastic);
}
