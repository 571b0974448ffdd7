use cube_physics::collision::{get_projected_min_max, test_collision_2d, EMPTY_HIGH, EMPTY_LOW};
use cube_physics::vector::{perpendicular, vec2, Axis2, Vec2};

#[test]
fn test_colliding() {
    let triangle_one = [vec2(0, 0), vec2(0, 1), vec2(1, 0)];
    let triangle_two = [vec2(0, 0), vec2(0, 1), vec2(1, 0)];

    let is_colliding = test_collision_2d(&triangle_one, &triangle_two);

    assert!(is_colliding)
}

#[test]
fn test_not_colliding() {
    let triangle_one = [vec2(0, 0), vec2(0, 1), vec2(1, 0)];
    let triangle_two = [vec2(1, 1), vec2(1, 2), vec2(2, 2)];

    let is_colliding = test_collision_2d(&triangle_one, &triangle_two);

    assert!(!is_colliding)
}

#[test]
fn planar_test_is_symmetric() {
    let shapes: Vec<Vec<Vec2>> = vec![
        vec![vec2(0, 0), vec2(0, 1), vec2(1, 0)],
        vec![vec2(1, 1), vec2(1, 2), vec2(2, 2)],
        vec![vec2(-3, -3), vec2(3, -3), vec2(3, 3), vec2(-3, 3)],
        vec![vec2(3, 0), vec2(5, 0), vec2(4, 7)],
        vec![vec2(10, 10)],
        vec![],
    ];
    for a in shapes.iter() {
        for b in shapes.iter() {
            assert_eq!(test_collision_2d(a, b), test_collision_2d(b, a));
        }
    }
}

#[test]
fn closing_edge_of_the_loop_is_tested() {
    // Only the edge from the last vertex back to the first separates these two.
    let wide = [vec2(100, 0), vec2(0, 10), vec2(-100, 0)];
    let below = [vec2(0, -1), vec2(-1, -5), vec2(1, -4)];
    assert!(!test_collision_2d(&wide, &below));
    assert!(!test_collision_2d(&below, &wide));
}

#[test]
fn touching_shapes_collide() {
    let left = [vec2(0, 0), vec2(2, 0), vec2(2, 2), vec2(0, 2)];
    let right = [vec2(2, 0), vec2(4, 0), vec2(4, 2), vec2(2, 2)];
    let apart = [vec2(3, 0), vec2(5, 0), vec2(5, 2), vec2(3, 2)];
    assert!(test_collision_2d(&left, &right));
    assert!(!test_collision_2d(&left, &apart));
}

#[test]
fn shapes_with_a_common_vertex_collide() {
    let a = [vec2(0, 0), vec2(5, 1), vec2(2, 7)];
    let b = [vec2(2, 7), vec2(9, 9), vec2(3, 12)];
    assert!(test_collision_2d(&a, &b));
}

#[test]
fn empty_shapes() {
    let none: [Vec2; 0] = [];
    let triangle = [vec2(0, 0), vec2(0, 1), vec2(1, 0)];
    // No edge, no axis: nothing separates two empty shapes.
    assert!(test_collision_2d(&none, &none));
    // Every edge normal of the triangle separates it from nothing.
    assert!(!test_collision_2d(&triangle, &none));
    assert!(!test_collision_2d(&none, &triangle));
}

#[test]
fn projection_interval_of_a_triangle() {
    let triangle = [vec2(0, 0), vec2(0, 1), vec2(1, 0)];
    let axis = Axis2 { x: 1, y: 1 };
    assert_eq!(get_projected_min_max(&triangle, &axis), (0, 1));
    let axis = Axis2 { x: -3, y: 2 };
    assert_eq!(get_projected_min_max(&triangle, &axis), (-3, 2));
}

#[test]
fn projection_interval_of_nothing_is_the_sentinel_pair() {
    let none: [Vec2; 0] = [];
    let axis = Axis2 { x: 1, y: 0 };
    assert_eq!(get_projected_min_max(&none, &axis), (EMPTY_LOW, EMPTY_HIGH));
    assert_eq!(EMPTY_LOW, i128::MAX);
    assert_eq!(EMPTY_HIGH, i128::MIN);
}

#[test]
fn projection_at_the_limits_of_the_coordinates() {
    let far = [vec2(i32::MIN, i32::MIN), vec2(i32::MAX, i32::MAX)];
    let axis = perpendicular(vec2(i32::MAX, i32::MIN), vec2(i32::MIN, i32::MAX));
    assert_eq!(axis, Axis2 { x: -4294967295, y: -4294967295 });
    let (low, high) = get_projected_min_max(&far, &axis);
    assert_eq!(high, 2 * 2147483648i128 * 4294967295i128);
    assert_eq!(low, -2 * 2147483647i128 * 4294967295i128);
}

#[test]
fn perpendicular_turns_the_edge_a_quarter_turn() {
    assert_eq!(perpendicular(vec2(0, 0), vec2(3, 4)), Axis2 { x: -4, y: 3 });
    assert_eq!(perpendicular(vec2(1, 1), vec2(1, 1)), Axis2 { x: 0, y: 0 });
}
