use raycaster::{CameraPose, Rotation, Vector3, COORD_MAX, ROTATION_MAX};

fn forward(x: i128, y: i128, z: i128, w: i128) -> Vector3 {
    Rotation::new(x, y, z, w).unwrap().forward()
}

#[test]
fn identity_looks_along_z() {
    assert_eq!(Rotation::identity().forward(), Vector3::new(0, 0, 1000));
    assert_eq!(Rotation::identity(), Rotation::new(0, 0, 0, 1).unwrap());
}

#[test]
fn quarter_turn_about_x_looks_down() {
    assert_eq!(forward(1, 0, 0, 1), Vector3::new(0, -1000, 0));
    assert_eq!(forward(-1, 0, 0, 1), Vector3::new(0, 1000, 0));
}

#[test]
fn quarter_turn_about_y_looks_along_x() {
    assert_eq!(forward(0, 1, 0, 1), Vector3::new(1000, 0, 0));
    assert_eq!(forward(0, -1, 0, 1), Vector3::new(-1000, 0, 0));
}

#[test]
fn turn_about_z_keeps_the_forward_axis() {
    assert_eq!(forward(0, 0, 1, 1), Vector3::new(0, 0, 1000));
    assert_eq!(forward(0, 0, 1, 0), Vector3::new(0, 0, 1000));
}

#[test]
fn half_turn_about_x_or_y_looks_back() {
    assert_eq!(forward(1, 0, 0, 0), Vector3::new(0, 0, -1000));
    assert_eq!(forward(0, 1, 0, 0), Vector3::new(0, 0, -1000));
}

#[test]
fn length_and_sign_of_the_quaternion_do_not_matter() {
    let expected = forward(1, 2, 3, 4);
    assert_eq!(forward(2, 4, 6, 8), expected);
    assert_eq!(forward(-1, -2, -3, -4), expected);
    assert_eq!(forward(250_000, 500_000, 750_000, 1_000_000), expected);
}

#[test]
fn forward_axis_is_rounded_down() {
    // q = (1, 2, 3, 4): |q|^2 = 30 and q Z q* = (22, 4, 20).
    assert_eq!(forward(1, 2, 3, 4), Vector3::new(733, 133, 666));
    // q = (1, 2, 3, -4): q Z q* = (-10, 20, 20), and -10000 / 30 rounds down to -334.
    assert_eq!(forward(1, 2, 3, -4), Vector3::new(-334, 666, 666));
    // q = (2, 1, 0, 3): |q|^2 = 14 and q Z q* = (6, -12, 4).
    assert_eq!(forward(2, 1, 0, 3), Vector3::new(428, -858, 285));
}

#[test]
fn forward_axis_of_the_largest_quaternion() {
    let m = ROTATION_MAX;
    // q = (m, m, m, m): q Z q* = (4 m^2, 0, 0) and |q|^2 = 4 m^2.
    assert_eq!(forward(m, m, m, m), Vector3::new(1000, 0, 0));
    assert_eq!(forward(-m, m, -m, m), Vector3::new(1000, 0, 0));
    assert_eq!(forward(m, -m, -m, -m), Vector3::new(0, 1000, 0));
    assert_eq!(forward(m, -m, -m, m), Vector3::new(-1000, 0, 0));
}

#[test]
fn zero_quaternion_is_no_rotation() {
    assert!(Rotation::new(0, 0, 0, 0).is_none());
}

#[test]
fn quaternion_beyond_the_bound_is_refused() {
    let m = ROTATION_MAX;
    assert!(Rotation::new(m, -m, m, -m).is_some());
    assert!(Rotation::new(m + 1, 0, 0, 1).is_none());
    assert!(Rotation::new(0, -m - 1, 0, 1).is_none());
    assert!(Rotation::new(0, 0, m + 1, 1).is_none());
    assert!(Rotation::new(0, 0, 0, -m - 1).is_none());
}

#[test]
fn pose_outside_the_grid_is_refused() {
    let rotation = Rotation::identity();
    assert!(CameraPose::new(Vector3::new(COORD_MAX, -COORD_MAX, 0), rotation).is_some());
    assert!(CameraPose::new(Vector3::new(COORD_MAX + 1, 0, 0), rotation).is_none());
    assert!(CameraPose::new(Vector3::new(0, 0, -COORD_MAX - 1), rotation).is_none());
}

#[test]
fn pose_keeps_position_and_rotation() {
    let rotation = Rotation::new(1, 2, 3, 4).unwrap();
    let pose = CameraPose::new(Vector3::new(5, 6, 7), rotation).unwrap();
    assert_eq!(pose.position(), Vector3::new(5, 6, 7));
    assert_eq!(pose.rotation(), rotation);
}

#[test]
fn ray_leaves_the_position_along_the_forward_axis() {
    let pose =
        CameraPose::new(Vector3::new(100, -200, 300), Rotation::new(0, 1, 0, 1).unwrap()).unwrap();
    let ray = pose.ray(0, 0);
    assert_eq!(ray.origin(), Vector3::new(100, -200, 300));
    assert_eq!(ray.direction(), Vector3::new(1000, 0, 0));
}

#[test]
fn every_pixel_receives_the_same_ray() {
    let pose =
        CameraPose::new(Vector3::new(100, -200, 300), Rotation::new(1, 2, 3, 4).unwrap()).unwrap();
    let first = pose.ray(0, 0);
    for (x, y) in [(1, 0), (0, 1), (499, 499), (u32::MAX, u32::MAX)] {
        assert_eq!(pose.ray(x, y), first);
    }
}

#[test]
fn ray_from_the_rim_of_the_grid() {
    let m = COORD_MAX;
    let pose = CameraPose::new(Vector3::new(m, m, -m), Rotation::identity()).unwrap();
    let ray = pose.ray(7, 9);
    assert_eq!(ray.origin(), Vector3::new(m, m, -m));
    assert_eq!(ray.direction(), Vector3::new(0, 0, 1000));
}
