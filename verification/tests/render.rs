use raycaster::{
    gen_triangles, render_frame, update_pixel, CameraPose, Indices, Mesh, NormalRule, Pixel,
    PixelBuffer, Rotation, Scene, Topology, Triangle, Vector3, ALPHA,
};

const WHITE: Pixel = Pixel { r: 255, g: 255, b: 255, a: 254 };
const BLACK: Pixel = Pixel { r: 0, g: 0, b: 0, a: 254 };

fn camera_at(x: i128, y: i128, z: i128) -> CameraPose {
    CameraPose::new(Vector3::new(x, y, z), Rotation::identity()).unwrap()
}

fn pane(depth: i128) -> Triangle {
    Triangle::from_vertices(
        Vector3::new(-1000, -1000, depth),
        Vector3::new(1000, -1000, depth),
        Vector3::new(0, 1000, depth),
        NormalRule::Edges,
    )
    .unwrap()
}

/// Two triangles for the rectangle `a, b, c, d`.
fn quad(indices: &mut Vec<u32>, a: u32, b: u32, c: u32, d: u32) {
    indices.extend_from_slice(&[a, b, c, a, c, d]);
}

/// A square ring around the z axis: the box from (-2, -2, 4) to (2, 2, 6), in
/// world units, with the hole from (-1, -1) to (1, 1) cut through it along z.
fn ring() -> Mesh {
    let mut positions: Vec<Vector3> = Vec::new();
    for z in [4000, 6000] {
        for half in [2000, 1000] {
            positions.push(Vector3::new(-half, -half, z));
            positions.push(Vector3::new(half, -half, z));
            positions.push(Vector3::new(half, half, z));
            positions.push(Vector3::new(-half, half, z));
        }
    }
    // Corners 0..4: outer front, 4..8: inner front, 8..12: outer back, 12..16: inner back.
    let mut indices: Vec<u32> = Vec::new();
    for side in 0..4u32 {
        let next = (side + 1) % 4;
        quad(&mut indices, side, next, 4 + next, 4 + side);
        quad(&mut indices, 8 + side, 12 + side, 12 + next, 8 + next);
        quad(&mut indices, side, 8 + side, 8 + next, next);
        quad(&mut indices, 4 + side, 4 + next, 12 + next, 12 + side);
    }
    Mesh {
        topology: Topology::TriangleList,
        indices: Some(Indices::U32(indices)),
        positions: Some(positions),
    }
}

fn ring_scene() -> Scene {
    let triangles = gen_triangles(&ring(), NormalRule::Edges);
    assert_eq!(triangles.len(), 32);
    assert!(triangles.iter().all(|t| !t.is_degenerate()));
    Scene::new(triangles)
}

#[test]
fn lit_pixel_is_white_and_unlit_pixel_is_black() {
    assert_eq!(Pixel::lit(), WHITE);
    assert_eq!(Pixel::unlit(), BLACK);
    assert_eq!(ALPHA, 254);
}

#[test]
fn pixel_is_lit_when_the_ray_hits() {
    let scene = Scene::new(vec![pane(5000)]);
    assert_eq!(update_pixel(0, 0, &scene, &camera_at(0, 0, 0)), WHITE);
    assert_eq!(update_pixel(17, 4, &scene, &camera_at(0, 0, 0)), WHITE);
}

#[test]
fn pixel_is_unlit_when_the_ray_misses() {
    let scene = Scene::new(vec![pane(5000)]);
    assert_eq!(update_pixel(0, 0, &scene, &camera_at(3000, 0, 0)), BLACK);
    assert_eq!(update_pixel(0, 0, &scene, &camera_at(0, 0, 6000)), BLACK);
}

#[test]
fn pixel_is_unlit_in_an_empty_scene() {
    let scene = Scene::new(vec![]);
    assert_eq!(update_pixel(0, 0, &scene, &camera_at(0, 0, 0)), BLACK);
}

#[test]
fn pixel_is_lit_when_a_later_triangle_is_hit() {
    let beside = Triangle::from_vertices(
        Vector3::new(5000, 5000, 1000),
        Vector3::new(6000, 5000, 1000),
        Vector3::new(5000, 6000, 1000),
        NormalRule::Edges,
    )
    .unwrap();
    let scene = Scene::new(vec![beside, beside, pane(5000)]);
    assert_eq!(update_pixel(0, 0, &scene, &camera_at(0, 0, 0)), WHITE);
}

#[test]
fn new_buffer_is_unlit() {
    let buffer = PixelBuffer::new(3, 2).unwrap();
    assert_eq!(buffer.width(), 3);
    assert_eq!(buffer.height(), 2);
    assert_eq!(buffer.pixels(), &vec![BLACK; 6]);
}

#[test]
fn buffer_without_pixels() {
    for (width, height) in [(0, 0), (0, 5), (5, 0)] {
        let mut buffer = PixelBuffer::new(width, height).unwrap();
        assert!(buffer.pixels().is_empty());
        assert_eq!(buffer.get(0, 0), None);
        render_frame(&Scene::new(vec![pane(5000)]), &camera_at(0, 0, 0), &mut buffer);
        assert!(buffer.pixels().is_empty());
        assert_eq!((buffer.width(), buffer.height()), (width, height));
    }
}

#[test]
fn get_reads_inside_and_refuses_outside() {
    let buffer = PixelBuffer::new(3, 2).unwrap();
    assert_eq!(buffer.get(0, 0), Some(BLACK));
    assert_eq!(buffer.get(2, 1), Some(BLACK));
    assert_eq!(buffer.get(3, 0), None);
    assert_eq!(buffer.get(0, 2), None);
    assert_eq!(buffer.get(u32::MAX, u32::MAX), None);
}

#[test]
fn frame_of_a_hit_scene_is_lit_throughout() {
    let scene = Scene::new(vec![pane(5000)]);
    let mut buffer = PixelBuffer::new(4, 3).unwrap();
    render_frame(&scene, &camera_at(0, 0, 0), &mut buffer);
    assert_eq!((buffer.width(), buffer.height()), (4, 3));
    assert_eq!(buffer.pixels(), &vec![WHITE; 12]);
    for y in 0..3 {
        for x in 0..4 {
            assert_eq!(buffer.get(x, y), Some(update_pixel(x, y, &scene, &camera_at(0, 0, 0))));
        }
    }
}

#[test]
fn frame_of_an_empty_scene_is_unlit_throughout() {
    let mut buffer = PixelBuffer::new(4, 3).unwrap();
    render_frame(&Scene::new(vec![pane(5000)]), &camera_at(0, 0, 0), &mut buffer);
    render_frame(&Scene::new(vec![]), &camera_at(0, 0, 0), &mut buffer);
    assert_eq!(buffer.pixels(), &vec![BLACK; 12]);
}

#[test]
fn frame_of_an_unsupported_mesh_is_unlit_throughout() {
    let mut mesh = ring();
    mesh.topology = Topology::TriangleStrip;
    let scene = Scene::new(gen_triangles(&mesh, NormalRule::Edges));
    assert!(scene.triangles.is_empty());
    let mut buffer = PixelBuffer::new(2, 2).unwrap();
    render_frame(&scene, &camera_at(1500, 0, 0), &mut buffer);
    assert_eq!(buffer.pixels(), &vec![BLACK; 4]);
}

#[test]
fn frame_is_stored_row_after_row() {
    let buffer = PixelBuffer::new(3, 2).unwrap();
    assert_eq!(buffer.pixels().len(), 6);
    for y in 0..2u32 {
        for x in 0..3u32 {
            assert_eq!(buffer.get(x, y), Some(buffer.pixels()[(y * 3 + x) as usize]));
        }
    }
}

#[test]
fn every_frame_is_derived_anew() {
    let scene = Scene::new(vec![pane(5000)]);
    let mut buffer = PixelBuffer::new(5, 5).unwrap();
    render_frame(&scene, &camera_at(0, 0, 0), &mut buffer);
    assert_eq!(buffer.pixels(), &vec![WHITE; 25]);
    render_frame(&scene, &camera_at(3000, 0, 0), &mut buffer);
    assert_eq!(buffer.pixels(), &vec![BLACK; 25]);
    render_frame(&scene, &camera_at(500, -500, 1000), &mut buffer);
    assert_eq!(buffer.pixels(), &vec![WHITE; 25]);
}

#[test]
fn camera_looking_through_the_hole_of_a_ring_sees_nothing() {
    let scene = ring_scene();
    for (x, y) in [(0, 0), (500, -500), (-999, 999)] {
        let camera = camera_at(x, y, 0);
        assert_eq!(scene.intersect_scene(&camera.ray(0, 0)), None);
        let mut buffer = PixelBuffer::new(3, 3).unwrap();
        render_frame(&scene, &camera, &mut buffer);
        assert_eq!(buffer.pixels(), &vec![BLACK; 9]);
    }
}

#[test]
fn camera_looking_at_the_body_of_a_ring_sees_its_front() {
    let scene = ring_scene();
    for (x, y) in [(1500, 0), (-1500, 300), (0, 1999), (1200, -1700)] {
        let camera = camera_at(x, y, 0);
        let found = scene.intersect_scene(&camera.ray(0, 0)).unwrap();
        assert_eq!(found.hit.numer, 4 * found.hit.denom);
        assert_eq!(found.hit.point.z, 4000 * found.hit.denom);
        let mut buffer = PixelBuffer::new(3, 3).unwrap();
        render_frame(&scene, &camera, &mut buffer);
        assert_eq!(buffer.pixels(), &vec![WHITE; 9]);
    }
}

#[test]
fn camera_looking_past_a_ring_sees_nothing() {
    let scene = ring_scene();
    for (x, y) in [(2001, 0), (0, -2500), (3000, 3000)] {
        let mut buffer = PixelBuffer::new(2, 2).unwrap();
        render_frame(&scene, &camera_at(x, y, 0), &mut buffer);
        assert_eq!(buffer.pixels(), &vec![BLACK; 4]);
    }
}

#[test]
fn camera_inside_the_body_of_a_ring_sees_its_back() {
    let scene = ring_scene();
    let camera = camera_at(1500, 0, 5000);
    let found = scene.intersect_scene(&camera.ray(0, 0)).unwrap();
    assert_eq!(found.hit.numer, found.hit.denom);
    assert_eq!(update_pixel(0, 0, &scene, &camera), WHITE);
}

#[test]
fn camera_turned_sideways_sees_the_wall_of_the_hole() {
    let scene = ring_scene();
    // From the middle of the hole, looking along +X: the inner wall at x = 1.
    let camera =
        CameraPose::new(Vector3::new(0, 0, 5000), Rotation::new(0, 1, 0, 1).unwrap()).unwrap();
    let found = scene.intersect_scene(&camera.ray(0, 0)).unwrap();
    assert_eq!(found.hit.numer, found.hit.denom);
    assert_eq!(found.hit.point, Vector3::new(1000, 0, 5000).scale(found.hit.denom));
    assert_eq!(update_pixel(0, 0, &scene, &camera), WHITE);
}

#[test]
fn silhouette_of_a_ring_belongs_to_the_ring() {
    let scene = ring_scene();
    assert_eq!(update_pixel(0, 0, &scene, &camera_at(1000, 0, 0)), WHITE);
    assert_eq!(update_pixel(0, 0, &scene, &camera_at(999, 0, 0)), BLACK);
    assert_eq!(update_pixel(0, 0, &scene, &camera_at(2000, 0, 0)), WHITE);
    assert_eq!(update_pixel(0, 0, &scene, &camera_at(2001, 0, 0)), BLACK);
}
