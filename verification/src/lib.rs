//! An exact raycaster: one ray per output pixel is tested against the triangles
//! of a scene, and the pixel is lit when the ray hits a triangle.
//!
//! All geometry lives on a fixed-point grid. A coordinate is an integer count of
//! grid steps, [`UNIT`] steps to one world unit, and every quantity derived from
//! coordinates (a dot product, a ray parameter, an intersection point) is an
//! integer or a ratio of two integers. No value is rounded on the way from a
//! ray and a triangle to the verdict, so the contracts state the geometry
//! exactly; the one rounding in the library, of a camera's forward axis to the
//! grid, is part of the contract of [`Rotation::forward`].
//!
//! The parts, in the order of the data's flow:
//!
//! - [`mesh`] turns the index and position buffers of a mesh into triangles;
//! - [`camera`] casts the ray of a pixel from a camera pose;
//! - [`triangle`] intersects a ray with a triangle, and [`scene`] finds the
//!   nearest intersection among all triangles;
//! - [`render`] derives the colour of every pixel of a frame;
//! - [`theorems`] proves what the intersection test means geometrically.
//!
//! Coordinates are bounded by [`COORD_MAX`] so that every intermediate fits
//! `i128`. Triangles, rays and camera poses can only be built within the bound,
//! and the functions that work on them ask nothing more of their callers.
pub mod algebra;
pub mod camera;
pub mod grid;
pub mod mesh;
pub mod ray;
pub mod render;
pub mod scene;
pub mod theorems;
pub mod triangle;
pub mod vector;

pub use camera::{CameraModel, CameraPose, Rotation, RotationModel};
pub use grid::{
    COORD_MAX, DENOM_MAX, EPSILON_INVERSE, NORMAL_MAX, NUMER_MAX, POINT_MAX, ROTATION_MAX, UNIT,
};
pub use mesh::{gen_triangles, Indices, Mesh, Topology};
pub use ray::{Ray, RayModel};
pub use render::{render_frame, update_pixel, FrameModel, Pixel, PixelBuffer, ALPHA};
pub use scene::{Scene, SceneHit};
pub use triangle::{Hit, HitModel, NormalRule, Triangle, TriangleModel};
pub use vector::{IntVector, Vector3};
