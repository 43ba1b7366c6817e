use raycaster::{
    Hit, NormalRule, Ray, Triangle, Vector3, COORD_MAX, DENOM_MAX, NORMAL_MAX, NUMER_MAX,
    POINT_MAX,
};

fn unit_triangle() -> Triangle {
    Triangle::from_vertices(
        Vector3::new(0, 0, 0),
        Vector3::new(1000, 0, 0),
        Vector3::new(0, 1000, 0),
        NormalRule::Edges,
    )
    .unwrap()
}

/// A large triangle in the plane `z = 0` with the given normal.
fn floor_triangle(normal: Vector3) -> Triangle {
    Triangle::new(
        Vector3::new(-60_000, -60_000, 0),
        Vector3::new(60_000, -60_000, 0),
        Vector3::new(0, 60_000, 0),
        normal,
    )
    .unwrap()
}

fn ray(origin: (i128, i128, i128), direction: (i128, i128, i128)) -> Ray {
    Ray::new(
        Vector3::new(origin.0, origin.1, origin.2),
        Vector3::new(direction.0, direction.1, direction.2),
    )
    .unwrap()
}

fn parameter(hit: &Hit) -> f64 {
    hit.numer as f64 / hit.denom as f64
}

fn world_point(hit: &Hit) -> (f64, f64, f64) {
    let scale = hit.denom as f64 * 1000.0;
    (hit.point.x as f64 / scale, hit.point.y as f64 / scale, hit.point.z as f64 / scale)
}

#[test]
fn ray_through_the_triangle_hits_at_five() {
    let tri = unit_triangle();
    assert_eq!(tri.normal(), Vector3::new(0, 0, 1_000_000));
    let hit = tri.intersects_ray(&ray((200, 200, -5000), (0, 0, 1000))).unwrap();
    assert_eq!(hit.numer, 5 * hit.denom);
    assert_eq!(hit.point, Vector3::new(200 * hit.denom, 200 * hit.denom, 0));
    assert_eq!(parameter(&hit), 5.0);
    assert_eq!(world_point(&hit), (0.2, 0.2, 0.0));
}

#[test]
fn hit_holds_the_unreduced_fraction() {
    let hit = unit_triangle().intersects_ray(&ray((200, 200, -5000), (0, 0, 1000))).unwrap();
    assert_eq!(
        hit,
        Hit {
            numer: 5_000_000_000,
            denom: 1_000_000_000,
            point: Vector3::new(200_000_000_000, 200_000_000_000, 0),
        }
    );
}

#[test]
fn ray_beside_the_triangle_misses() {
    let tri = unit_triangle();
    assert_eq!(tri.intersects_ray(&ray((5000, 5000, -5000), (0, 0, 1000))), None);
}

#[test]
fn ray_against_the_normal_hits_as_well() {
    let hit = unit_triangle().intersects_ray(&ray((200, 200, 5000), (0, 0, -1000))).unwrap();
    assert!(hit.denom > 0);
    assert_eq!(hit.numer, 5 * hit.denom);
    assert_eq!(world_point(&hit), (0.2, 0.2, 0.0));
}

#[test]
fn plane_behind_the_origin_is_not_hit() {
    let tri = unit_triangle();
    assert_eq!(tri.intersects_ray(&ray((200, 200, 5000), (0, 0, 1000))), None);
    assert_eq!(tri.intersects_ray(&ray((200, 200, -5000), (0, 0, -1000))), None);
}

#[test]
fn origin_on_the_triangle_hits_at_zero() {
    let hit = unit_triangle().intersects_ray(&ray((200, 200, 0), (0, 0, 1000))).unwrap();
    assert_eq!(hit.numer, 0);
    assert!(hit.denom > 0);
    assert_eq!(world_point(&hit), (0.2, 0.2, 0.0));
}

#[test]
fn slanted_ray_hits_where_it_crosses_the_plane() {
    // From (0.1, 0.1, -2) along (0.1, 0.2, 1): the plane z = 0 is reached at t = 2,
    // in the point (0.3, 0.5, 0).
    let hit = unit_triangle().intersects_ray(&ray((100, 100, -2000), (100, 200, 1000))).unwrap();
    assert_eq!(hit.numer, 2 * hit.denom);
    assert_eq!(hit.point, Vector3::new(300 * hit.denom, 500 * hit.denom, 0));
}

#[test]
fn fractional_parameter_is_exact() {
    // From z = -1 along (0, 0, 3): t = 1/3.
    let hit = unit_triangle().intersects_ray(&ray((200, 200, -1000), (0, 0, 3000))).unwrap();
    assert_eq!(3 * hit.numer, hit.denom);
    assert_eq!(hit.point.z, 0);
    assert_eq!(hit.point.x, 200 * hit.denom);
}

#[test]
fn point_on_an_edge_counts_as_inside() {
    let tri = unit_triangle();
    assert!(tri.intersects_ray(&ray((500, 0, -1000), (0, 0, 1000))).is_some());
    assert!(tri.intersects_ray(&ray((0, 500, -1000), (0, 0, 1000))).is_some());
    assert!(tri.intersects_ray(&ray((500, 500, -1000), (0, 0, 1000))).is_some());
}

#[test]
fn point_on_a_vertex_counts_as_inside() {
    let tri = unit_triangle();
    assert!(tri.intersects_ray(&ray((0, 0, -1000), (0, 0, 1000))).is_some());
    assert!(tri.intersects_ray(&ray((1000, 0, -1000), (0, 0, 1000))).is_some());
    assert!(tri.intersects_ray(&ray((0, 1000, -1000), (0, 0, 1000))).is_some());
}

#[test]
fn point_one_step_beyond_an_edge_is_outside() {
    let tri = unit_triangle();
    assert_eq!(tri.intersects_ray(&ray((500, -1, -1000), (0, 0, 1000))), None);
    assert_eq!(tri.intersects_ray(&ray((-1, 500, -1000), (0, 0, 1000))), None);
    assert_eq!(tri.intersects_ray(&ray((501, 500, -1000), (0, 0, 1000))), None);
}

#[test]
fn point_one_step_inside_an_edge_is_inside() {
    let tri = unit_triangle();
    assert!(tri.intersects_ray(&ray((500, 1, -1000), (0, 0, 1000))).is_some());
    assert!(tri.intersects_ray(&ray((1, 500, -1000), (0, 0, 1000))).is_some());
    assert!(tri.intersects_ray(&ray((499, 500, -1000), (0, 0, 1000))).is_some());
}

#[test]
fn ray_in_the_plane_is_parallel() {
    let tri = floor_triangle(Vector3::new(0, 0, 1));
    assert_eq!(tri.intersects_ray(&ray((0, 0, 0), (1000, 0, 0))), None);
    assert_eq!(tri.intersects_ray(&ray((0, 0, -100), (0, 1000, 0))), None);
}

#[test]
fn ray_just_below_the_threshold_is_parallel() {
    // Unit normal . direction = 0.009 < 0.01, though the ray would cross the plane
    // inside the triangle.
    let tri = floor_triangle(Vector3::new(0, 0, 1));
    assert_eq!(tri.intersects_ray(&ray((0, 0, -100), (1000, 0, 9))), None);
    assert_eq!(tri.intersects_ray(&ray((0, 0, 100), (1000, 0, -9))), None);
}

#[test]
fn ray_at_the_threshold_is_not_parallel() {
    // Unit normal . direction = 0.01 exactly: t = 0.1 / 0.01 = 10.
    let tri = floor_triangle(Vector3::new(0, 0, 1));
    let hit = tri.intersects_ray(&ray((0, 0, -100), (1000, 0, 10))).unwrap();
    assert_eq!(hit.numer, 10 * hit.denom);
    assert_eq!(hit.point, Vector3::new(10_000 * hit.denom, 0, 0));
    let back = tri.intersects_ray(&ray((0, 0, 100), (1000, 0, -10))).unwrap();
    assert_eq!(back.numer, 10 * back.denom);
}

#[test]
fn threshold_does_not_depend_on_the_length_of_the_normal() {
    for length in [1, 7, 1000, NORMAL_MAX] {
        let tri = floor_triangle(Vector3::new(0, 0, length));
        assert_eq!(tri.intersects_ray(&ray((0, 0, -100), (1000, 0, 9))), None);
        let hit = tri.intersects_ray(&ray((0, 0, -100), (1000, 0, 10))).unwrap();
        assert_eq!(hit.numer, 10 * hit.denom);
        assert_eq!(hit.point, Vector3::new(10_000 * hit.denom, 0, 0));
    }
}

#[test]
fn threshold_is_measured_against_the_unit_normal() {
    // Normal (3, 0, 4) has length 5. Direction (0, 0, 12): unit normal . direction
    // is 4 * 12 / 5 = 9.6 grid steps, below the ten steps of the threshold.
    // Direction (0, 0, 13) gives 10.4 steps, above it.
    let tri = Triangle::new(
        Vector3::new(0, 0, 0),
        Vector3::new(4000, 0, -3000),
        Vector3::new(0, 1000, 0),
        Vector3::new(3, 0, 4),
    )
    .unwrap();
    assert_eq!(tri.intersects_ray(&ray((1000, 100, -2000), (0, 0, 12))), None);
    assert!(tri.intersects_ray(&ray((1000, 100, -2000), (0, 0, 13))).is_some());
}

#[test]
fn triangle_with_zero_normal_is_never_hit() {
    let tri = Triangle::new(
        Vector3::new(0, 0, 0),
        Vector3::new(1000, 0, 0),
        Vector3::new(0, 1000, 0),
        Vector3::new(0, 0, 0),
    )
    .unwrap();
    assert!(tri.is_degenerate());
    assert_eq!(tri.intersects_ray(&ray((200, 200, -5000), (0, 0, 1000))), None);
    assert_eq!(tri.intersects_ray(&ray((200, 200, 0), (1000, 0, 0))), None);
}

#[test]
fn triangle_with_a_repeated_vertex_is_never_hit() {
    let a = Vector3::new(0, 0, 0);
    let b = Vector3::new(1000, 0, 0);
    let c = Vector3::new(0, 1000, 0);
    for (v0, v1, v2) in [(a, a, c), (a, b, b), (a, b, a), (b, b, b)] {
        let tri = Triangle::from_vertices(v0, v1, v2, NormalRule::Edges).unwrap();
        assert!(tri.is_degenerate());
        assert_eq!(tri.normal(), Vector3::new(0, 0, 0));
        assert_eq!(tri.intersects_ray(&ray((0, 0, -5000), (0, 0, 1000))), None);
        assert_eq!(tri.intersects_ray(&ray((500, 0, -5000), (0, 0, 1000))), None);
        assert_eq!(tri.intersects_ray(&ray((1000, 0, -5000), (0, 0, 1000))), None);
    }
}

#[test]
fn triangle_with_collinear_vertices_is_never_hit() {
    let tri = Triangle::from_vertices(
        Vector3::new(0, 0, 0),
        Vector3::new(1000, 1000, 0),
        Vector3::new(3000, 3000, 0),
        NormalRule::Edges,
    )
    .unwrap();
    assert!(tri.is_degenerate());
    assert_eq!(tri.intersects_ray(&ray((500, 500, -5000), (0, 0, 1000))), None);
    assert_eq!(tri.intersects_ray(&ray((2000, 2000, -5000), (0, 0, 1000))), None);
}

#[test]
fn edges_rule_follows_the_winding() {
    let a = Vector3::new(1000, 1000, 1000);
    let b = Vector3::new(2000, 1000, 1000);
    let c = Vector3::new(1000, 2000, 1000);
    let front = Triangle::from_vertices(a, b, c, NormalRule::Edges).unwrap();
    let back = Triangle::from_vertices(a, c, b, NormalRule::Edges).unwrap();
    assert_eq!(front.normal(), Vector3::new(0, 0, 1_000_000));
    assert_eq!(back.normal(), Vector3::new(0, 0, -1_000_000));
    assert_eq!(front.vertices(), [a, b, c]);
    assert_eq!(back.vertices(), [a, c, b]);
}

#[test]
fn positions_rule_crosses_the_first_two_vertices() {
    let a = Vector3::new(1000, 1000, 1000);
    let b = Vector3::new(2000, 1000, 1000);
    let c = Vector3::new(1000, 2000, 1000);
    let tri = Triangle::from_vertices(a, b, c, NormalRule::Positions).unwrap();
    assert_eq!(tri.normal(), a.cross(b));
    assert_eq!(tri.normal(), Vector3::new(0, 1_000_000, -1_000_000));
}

#[test]
fn positions_rule_on_a_triangle_at_the_coordinate_origin_is_degenerate() {
    let tri = Triangle::from_vertices(
        Vector3::new(0, 0, 0),
        Vector3::new(1000, 0, 0),
        Vector3::new(0, 1000, 0),
        NormalRule::Positions,
    )
    .unwrap();
    assert!(tri.is_degenerate());
    assert_eq!(tri.intersects_ray(&ray((200, 200, -5000), (0, 0, 1000))), None);
}

#[test]
fn positions_rule_tests_the_plane_through_the_coordinate_origin() {
    // The normal of (1,0,0) x (0,1,0) is +Z, and the plane tested is z = 0 through
    // the first vertex, whatever the third vertex.
    let tri = Triangle::from_vertices(
        Vector3::new(1000, 0, 0),
        Vector3::new(0, 1000, 0),
        Vector3::new(0, 0, 0),
        NormalRule::Positions,
    )
    .unwrap();
    assert_eq!(tri.normal(), Vector3::new(0, 0, 1_000_000));
    let hit = tri.intersects_ray(&ray((200, 200, -5000), (0, 0, 1000))).unwrap();
    assert_eq!(hit.numer, 5 * hit.denom);
}

#[test]
fn flat_face_with_a_positions_normal_can_be_hit_on_its_segment() {
    // Two vertices coincide, so the face has no area, yet its normal by the rule
    // of the positions is +Z and a ray through the remaining segment passes every
    // edge test.
    let tri = Triangle::from_vertices(
        Vector3::new(1000, 0, 0),
        Vector3::new(0, 1000, 0),
        Vector3::new(0, 1000, 0),
        NormalRule::Positions,
    )
    .unwrap();
    assert!(!tri.is_degenerate());
    assert!(tri.intersects_ray(&ray((500, 500, -5000), (0, 0, 1000))).is_some());
    assert_eq!(tri.intersects_ray(&ray((500, 501, -5000), (0, 0, 1000))), None);
}

#[test]
fn triangle_outside_the_grid_is_refused() {
    let inside = Vector3::new(COORD_MAX, -COORD_MAX, 0);
    let outside = Vector3::new(COORD_MAX + 1, 0, 0);
    let normal = Vector3::new(0, 0, 1);
    assert!(Triangle::new(inside, inside, inside, normal).is_some());
    assert!(Triangle::new(outside, inside, inside, normal).is_none());
    assert!(Triangle::new(inside, outside, inside, normal).is_none());
    assert!(Triangle::new(inside, inside, outside, normal).is_none());
    assert!(Triangle::new(inside, inside, inside, Vector3::new(0, NORMAL_MAX, 0)).is_some());
    assert!(Triangle::new(inside, inside, inside, Vector3::new(0, NORMAL_MAX + 1, 0)).is_none());
    assert!(Triangle::from_vertices(inside, inside, inside, NormalRule::Edges).is_some());
    assert!(Triangle::from_vertices(inside, outside, inside, NormalRule::Edges).is_none());
    assert!(Triangle::from_vertices(inside, inside, Vector3::new(0, 0, -COORD_MAX - 1), NormalRule::Positions).is_none());
}

#[test]
fn ray_outside_the_grid_is_refused() {
    let inside = Vector3::new(COORD_MAX, -COORD_MAX, 0);
    let outside = Vector3::new(0, COORD_MAX + 1, 0);
    assert!(Ray::new(inside, inside).is_some());
    assert!(Ray::new(outside, inside).is_none());
    assert!(Ray::new(inside, outside).is_none());
    let ray = Ray::new(Vector3::new(1, 2, 3), Vector3::new(4, 5, 6)).unwrap();
    assert_eq!(ray.origin(), Vector3::new(1, 2, 3));
    assert_eq!(ray.direction(), Vector3::new(4, 5, 6));
}

#[test]
fn extreme_coordinates_stay_exact() {
    let m = COORD_MAX;
    let tri = Triangle::from_vertices(
        Vector3::new(-m, -m, m),
        Vector3::new(m, -m, m),
        Vector3::new(-m, m, m),
        NormalRule::Edges,
    )
    .unwrap();
    assert_eq!(tri.normal(), Vector3::new(0, 0, 4 * m * m));
    let hit = tri.intersects_ray(&ray((-m, -m, -m), (1, 1, m))).unwrap();
    // The plane z = m is 2m away along a direction that rises by m: t = 2.
    assert_eq!(hit.numer, 2 * hit.denom);
    assert_eq!(hit.point, Vector3::new((2 - m) * hit.denom, (2 - m) * hit.denom, m * hit.denom));
    assert!(hit.denom <= DENOM_MAX);
    assert!(hit.numer <= NUMER_MAX);
    assert!(hit.point.is_within(POINT_MAX));
}

#[test]
fn largest_normal_and_farthest_ray_stay_exact() {
    let m = COORD_MAX;
    let tri = Triangle::new(
        Vector3::new(m, m, m),
        Vector3::new(-m, m, m),
        Vector3::new(m, -m, m),
        Vector3::new(NORMAL_MAX, NORMAL_MAX, NORMAL_MAX),
    )
    .unwrap();
    // The plane x + y + z = 3m is reached from (-m, -m, -m) along (m, m, m) at t = 2,
    // in the vertex (m, m, m).
    let hit = tri.intersects_ray(&ray((-m, -m, -m), (m, m, m))).unwrap();
    assert_eq!(hit.denom, DENOM_MAX);
    assert_eq!(hit.numer, NUMER_MAX);
    assert_eq!(hit.point, Vector3::new(m * hit.denom, m * hit.denom, m * hit.denom));
}
