use raycaster::{NormalRule, Ray, Scene, SceneHit, Triangle, Vector3};

/// A triangle around the z axis in the plane `z = depth`.
fn pane(depth: i128) -> Triangle {
    Triangle::from_vertices(
        Vector3::new(-1000, -1000, depth),
        Vector3::new(1000, -1000, depth),
        Vector3::new(0, 1000, depth),
        NormalRule::Edges,
    )
    .unwrap()
}

/// A triangle in the plane `z = depth` that the z axis passes by.
fn aside(depth: i128) -> Triangle {
    Triangle::from_vertices(
        Vector3::new(5000, 5000, depth),
        Vector3::new(6000, 5000, depth),
        Vector3::new(5000, 6000, depth),
        NormalRule::Edges,
    )
    .unwrap()
}

fn along_z() -> Ray {
    Ray::new(Vector3::new(0, 0, 0), Vector3::new(0, 0, 1000)).unwrap()
}

fn nearest(triangles: Vec<Triangle>) -> Option<SceneHit> {
    Scene::new(triangles).intersect_scene(&along_z())
}

#[test]
fn empty_scene_has_no_hit() {
    assert_eq!(nearest(vec![]), None);
}

#[test]
fn scene_of_missed_triangles_has_no_hit() {
    assert_eq!(nearest(vec![aside(3000), aside(5000), pane(-2000)]), None);
}

#[test]
fn single_triangle_is_found() {
    let found = nearest(vec![pane(5000)]).unwrap();
    assert_eq!(found.index, 0);
    assert_eq!(found.hit.numer, 5 * found.hit.denom);
    assert_eq!(found.hit, pane(5000).intersects_ray(&along_z()).unwrap());
}

#[test]
fn nearest_is_not_merely_the_first() {
    let found = nearest(vec![pane(7000), pane(3000), pane(5000)]).unwrap();
    assert_eq!(found.index, 1);
    assert_eq!(found.hit.numer, 3 * found.hit.denom);
    assert_eq!(found.hit.point.z, 3000 * found.hit.denom);
}

#[test]
fn nearest_is_the_same_in_every_order() {
    let depths: [i128; 3] = [3000, 5000, 7000];
    let orders: [[usize; 3]; 6] =
        [[0, 1, 2], [0, 2, 1], [1, 0, 2], [1, 2, 0], [2, 0, 1], [2, 1, 0]];
    for order in orders {
        let triangles: Vec<Triangle> = order.iter().map(|&i| pane(depths[i])).collect();
        let scene = Scene::new(triangles);
        let found = scene.intersect_scene(&along_z()).unwrap();
        assert_eq!(scene.triangles[found.index], pane(3000));
        assert_eq!(order[found.index], 0);
        assert_eq!(found.hit.numer, 3 * found.hit.denom);
    }
}

#[test]
fn missed_triangles_in_front_do_not_hide_a_hit() {
    let found = nearest(vec![aside(1000), pane(6000), aside(2000), pane(4000), aside(3000)]).unwrap();
    assert_eq!(found.index, 3);
    assert_eq!(found.hit.numer, 4 * found.hit.denom);
}

#[test]
fn triangles_behind_the_origin_are_ignored() {
    let found = nearest(vec![pane(-1000), pane(9000), pane(-3000)]).unwrap();
    assert_eq!(found.index, 1);
    assert_eq!(found.hit.numer, 9 * found.hit.denom);
}

#[test]
fn among_equal_parameters_the_first_triangle_is_named() {
    let found = nearest(vec![pane(8000), pane(2000), pane(2000), pane(2000)]).unwrap();
    assert_eq!(found.index, 1);
    assert_eq!(found.hit.numer, 2 * found.hit.denom);
}

#[test]
fn parameters_with_different_denominators_are_compared_as_fractions() {
    // The second triangle has a normal three times as long, hence a denominator
    // three times as large, and lies nearer.
    let far = pane(5000);
    let v = pane(4999).vertices();
    let near = Triangle::new(v[0], v[1], v[2], pane(4999).normal().scale(3)).unwrap();
    let found = nearest(vec![far, near]).unwrap();
    assert_eq!(found.index, 1);
    assert_eq!(1000 * found.hit.numer, 4999 * found.hit.denom);
    let found = nearest(vec![near, far]).unwrap();
    assert_eq!(found.index, 0);
}

#[test]
fn degenerate_triangles_are_passed_over() {
    let flat = Triangle::from_vertices(
        Vector3::new(0, 0, 1000),
        Vector3::new(0, 0, 1000),
        Vector3::new(0, 0, 1000),
        NormalRule::Edges,
    )
    .unwrap();
    let found = nearest(vec![flat, pane(5000)]).unwrap();
    assert_eq!(found.index, 1);
    assert_eq!(nearest(vec![flat]), None);
}
