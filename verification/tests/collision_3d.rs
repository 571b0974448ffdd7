use cube_physics::collision::{get_projected_min_max_3d, test_collision_3d, EMPTY_HIGH, EMPTY_LOW};
use cube_physics::vector::{cross, dot, normalize, vec3, Normal3, Vec3};

#[test]
fn collision_test_colliding() {
    let triangle_one = [vec3(0, 0, 0), vec3(0, 1, 0), vec3(1, 0, 0)];
    let triangle_two = [vec3(0, 0, 0), vec3(0, 1, 0), vec3(1, 0, 0)];

    let (is_colliding, _) = test_collision_3d(&triangle_one, 3 as usize, &triangle_two, 3 as usize);

    assert!(is_colliding)
}

#[test]
fn collision_test_not_colliding() {
    let triangle_one = [
        vec3(0, 0, 1),
        vec3(0, 1, 1),
        vec3(1, 0, 1),
        vec3(0, 1, 1),
        vec3(1, 1, 1),
        vec3(1, 0, 1),
    ];
    let triangle_two = [vec3(0, 0, 0), vec3(0, 1, 0), vec3(1, 0, 0)];

    let (is_colliding, _) = test_collision_3d(&triangle_one, 3 as usize, &triangle_two, 3 as usize);

    assert!(!is_colliding)
}

#[test]
fn separated_shapes_report_no_normal() {
    let upper = [vec3(0, 0, 1), vec3(0, 1, 1), vec3(1, 0, 1)];
    let lower = [vec3(0, 0, 0), vec3(0, 1, 0), vec3(1, 0, 0)];
    assert_eq!(test_collision_3d(&upper, 3, &lower, 3), (false, None));
    assert_eq!(test_collision_3d(&lower, 3, &upper, 3), (false, None));
}

#[test]
fn coplanar_triangles_report_their_common_normal() {
    let one = [vec3(0, 0, 0), vec3(0, 1, 0), vec3(1, 0, 0)];
    let two = [vec3(0, 0, 0), vec3(0, 1, 0), vec3(1, 0, 0)];
    // (0,1,0) x (1,0,0) = (0,0,-1)
    assert_eq!(test_collision_3d(&one, 3, &two, 3), (true, Some(vec3(0, 0, -1000))));
}

#[test]
fn spatial_test_is_symmetric() {
    let shapes: Vec<Vec<Vec3>> = vec![
        vec![vec3(0, 0, 0), vec3(0, 1, 0), vec3(1, 0, 0)],
        vec![vec3(0, 0, 1), vec3(0, 1, 1), vec3(1, 0, 1)],
        vec![vec3(-5, -5, -5), vec3(5, 5, -5), vec3(0, 0, 9), vec3(3, 1, 4), vec3(1, 5, 9), vec3(2, 6, 5)],
        vec![vec3(0, 0, 0), vec3(1, 1, 1)],
        vec![],
    ];
    for a in shapes.iter() {
        for b in shapes.iter() {
            assert_eq!(test_collision_3d(a, 3, b, 3).0, test_collision_3d(b, 3, a, 3).0);
        }
    }
}

#[test]
fn shallowest_axis_is_the_contact_normal() {
    // Two tetrahedra side by side along x, reaching 1 into each other there
    // and fully overlapping along y and z.
    fn tetrahedron(x: i32) -> Vec<Vec3> {
        let o = vec3(x, 0, 0);
        let a = vec3(x + 10, 0, 0);
        let b = vec3(x, 10, 0);
        let c = vec3(x, 0, 10);
        vec![o, b, a, o, a, c, o, c, b, a, b, c]
    }
    let left = tetrahedron(0);
    let right = tetrahedron(9);
    let (colliding, normal) = test_collision_3d(&left, 3, &right, 3);
    assert!(colliding);
    // Depths: along z and y the full 10 (10000), along x 1 (1000), along the
    // slanted face 577 * 1: that face is the shallowest.
    assert_eq!(normal, Some(vec3(577, 577, 577)));
}

#[test]
fn first_of_equally_shallow_axes_wins() {
    // The same square in the planes z = 0 seen from two triangles: both give
    // depth 0 along z; the normal of the first triangle is reported.
    let a = [vec3(0, 0, 0), vec3(4, 0, 0), vec3(0, 4, 0)];
    let b = [vec3(0, 0, 0), vec3(0, 4, 0), vec3(4, 0, 0)];
    assert_eq!(test_collision_3d(&a, 3, &b, 3), (true, Some(vec3(0, 0, 1000))));
    assert_eq!(test_collision_3d(&b, 3, &a, 3), (true, Some(vec3(0, 0, -1000))));
}

#[test]
fn degenerate_triangles_give_no_axis() {
    // All three vertices on a line: no normal, so nothing separates and no
    // axis is reported.
    let line = [vec3(0, 0, 0), vec3(1, 1, 1), vec3(2, 2, 2)];
    let far = [vec3(50, 50, 50), vec3(51, 51, 51), vec3(52, 52, 52)];
    assert_eq!(test_collision_3d(&line, 3, &far, 3), (true, Some(vec3(0, 0, 0))));
}

#[test]
fn vertices_short_of_a_triangle_are_passed_over() {
    let shape = [vec3(0, 0, 1), vec3(0, 1, 1), vec3(1, 0, 1), vec3(7, 7, 7)];
    let other = [vec3(0, 0, 0), vec3(0, 1, 0), vec3(1, 0, 0), vec3(9, 9, 9), vec3(8, 8, 8)];
    // The plane z = 1 leaves `other` below, except for its loose vertices.
    assert_eq!(test_collision_3d(&shape, 3, &other, 3).0, true);
    let two = [vec3(0, 0, 0), vec3(0, 1, 0)];
    assert_eq!(test_collision_3d(&two, 3, &two, 3), (true, Some(vec3(0, 0, 0))));
}

#[test]
fn stride_picks_the_start_of_each_triangle() {
    // With stride 4 the fourth vertex of each group is read by no triangle
    // but still projected.
    let a = [vec3(0, 0, 0), vec3(0, 1, 0), vec3(1, 0, 0), vec3(0, 0, 5)];
    let b = [vec3(0, 0, 3), vec3(0, 1, 3), vec3(1, 0, 3), vec3(0, 0, 4)];
    assert_eq!(test_collision_3d(&a, 4, &b, 4).0, true);
    let c = [vec3(0, 0, 6), vec3(0, 1, 6), vec3(1, 0, 6), vec3(0, 0, 7)];
    assert_eq!(test_collision_3d(&a, 4, &c, 4), (false, None));
    // Stride 1 reads a triangle at every vertex that has two successors.
    let strip = [vec3(0, 0, 0), vec3(0, 1, 0), vec3(1, 0, 0), vec3(1, 1, 0)];
    assert_eq!(test_collision_3d(&strip, 1, &strip, 1), (true, Some(vec3(0, 0, -1000))));
}

#[test]
fn empty_soups() {
    let none: [Vec3; 0] = [];
    let triangle = [vec3(0, 0, 0), vec3(0, 1, 0), vec3(1, 0, 0)];
    assert_eq!(test_collision_3d(&none, 3, &none, 3), (true, Some(vec3(0, 0, 0))));
    assert_eq!(test_collision_3d(&triangle, 3, &none, 3), (false, None));
    assert_eq!(test_collision_3d(&none, 3, &triangle, 3), (false, None));
}

#[test]
fn spatial_projection_interval() {
    let triangle = [vec3(0, 0, 1), vec3(0, 1, 1), vec3(1, 0, 1)];
    assert_eq!(get_projected_min_max_3d(&triangle, &vec3(0, 0, 1000)), (1000, 1000));
    assert_eq!(get_projected_min_max_3d(&triangle, &vec3(1, -2, 3)), (1, 4));
    let none: [Vec3; 0] = [];
    assert_eq!(get_projected_min_max_3d(&none, &vec3(1, 0, 0)), (EMPTY_LOW, EMPTY_HIGH));
}

#[test]
fn cross_product_of_the_edges() {
    assert_eq!(
        cross(vec3(0, 0, 0), vec3(0, 1, 0), vec3(1, 0, 0)),
        Normal3 { x: 0, y: 0, z: -1 }
    );
    assert_eq!(
        cross(vec3(1, 2, 3), vec3(4, 6, 8), vec3(0, -1, 5)),
        Normal3 { x: 4 * 2 - 5 * -3, y: 5 * -1 - 3 * 2, z: 3 * -3 - 4 * -1 }
    );
    let widest = cross(
        vec3(i32::MIN, i32::MIN, i32::MIN),
        vec3(i32::MIN, i32::MAX, i32::MIN),
        vec3(i32::MIN, i32::MIN, i32::MAX),
    );
    assert_eq!(widest, Normal3 { x: 4294967295i128 * 4294967295i128, y: 0, z: 0 });
}

#[test]
fn normalize_gives_length_scale() {
    assert_eq!(normalize(Normal3 { x: 0, y: 0, z: 0 }), None);
    assert_eq!(normalize(Normal3 { x: 3, y: 4, z: 0 }), Some(vec3(600, 800, 0)));
    assert_eq!(normalize(Normal3 { x: -3, y: 0, z: 4 }), Some(vec3(-600, 0, 800)));
    assert_eq!(normalize(Normal3 { x: 0, y: -7, z: 0 }), Some(vec3(0, -1000, 0)));
    assert_eq!(normalize(Normal3 { x: 1, y: 1, z: 1 }), Some(vec3(577, 577, 577)));
    assert_eq!(normalize(Normal3 { x: 1_000_000, y: 0, z: 0 }), Some(vec3(1000, 0, 0)));
}

#[test]
fn normalize_scales_large_normals_down_first() {
    // 3 * 2^60 and 4 * 2^60: divided by 2^26 before the length is taken.
    let n = Normal3 { x: 3 << 60, y: -(4 << 60), z: 0 };
    assert_eq!(normalize(n), Some(vec3(600, -800, 0)));
    let widest = 2 * 4294967295i128 * 4294967295i128;
    let n = Normal3 { x: widest, y: widest, z: -widest };
    assert_eq!(normalize(n), Some(vec3(577, 577, -577)));
    // Just below and at the threshold of 2^40.
    let n = Normal3 { x: (1 << 40) - 1, y: 0, z: 0 };
    assert_eq!(normalize(n), Some(vec3(1000, 0, 0)));
    let n = Normal3 { x: 0, y: 1 << 40, z: 1 << 40 };
    assert_eq!(normalize(n), Some(vec3(0, 707, 707)));
}

#[test]
fn scalar_product() {
    assert_eq!(dot(vec3(1, 2, 3), vec3(4, -5, 6)), 4 - 10 + 18);
    assert_eq!(dot(vec3(i32::MIN, i32::MIN, i32::MIN), vec3(i32::MIN, i32::MIN, i32::MIN)), 3 << 62);
}
