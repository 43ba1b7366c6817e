//! Triangles and the ray-triangle intersection test.
//!
//! The test intersects the ray with the plane through the first vertex that is
//! perpendicular to the stored normal, and then asks on which side of each edge
//! the plane point lies. With a unit normal `u`, a ray `o + t * d` and vertices
//! `a, b, c` it reads, over the reals:
//!
//! 1. the ray is parallel to the plane when `|u . d| < 1/100`, in world units;
//! 2. otherwise `t = (u . (a - o)) / (u . d)`, and the plane is behind the
//!    origin when `t < 0`;
//! 3. otherwise `P = o + t * d` is inside when `u . ((b - a) x (P - a))`,
//!    `u . ((c - b) x (P - b))` and `u . ((a - c) x (P - c))` are all at least 0.
//!
//! Here the normal `n` is stored unnormalised, `t` is kept as the ratio
//! `numer / denom` with `denom > 0`, and `P` as the integer vector `P * denom`.
//! Every comparison above keeps its truth value under these positive scalings,
//! so the test is decided without a division or a square root.
use crate::algebra::lemma_norm_squared_positive;
use crate::grid::{COORD_MAX, DENOM_MAX, EPSILON_INVERSE, NORMAL_MAX, NUMER_MAX, POINT_MAX, UNIT};
use crate::ray::{Ray, RayModel};
use crate::vector::{
    lemma_cross_bound, lemma_dot_bound, lemma_max_abs_within, lemma_operands_fit,
    lemma_product_bound, lemma_scaled_bound, IntVector, Vector3,
};
use vstd::prelude::*;

verus! {

/// How a face normal is derived from the three vertices of a face.
#[derive(Clone, Copy, Debug, PartialEq, Eq, Structural)]
pub enum NormalRule {
    /// The cross product of the first two vertices taken as position vectors.
    /// This normal is perpendicular to the plane through the coordinate origin
    /// and the first two vertices, which is the plane of the face only when the
    /// face's plane passes through the coordinate origin.
    Positions,
    /// The cross product of the two edges that leave the first vertex, which is
    /// perpendicular to the face and follows its winding by the right-hand rule.
    Edges,
}

/// The normal that `rule` assigns to the face `(v0, v1, v2)`, unnormalised.
pub open spec fn face_normal(rule: NormalRule, v0: IntVector, v1: IntVector, v2: IntVector)
    -> IntVector {
    match rule {
        NormalRule::Positions => v0.cross(v1),
        NormalRule::Edges => v1.minus(v0).cross(v2.minus(v0)),
    }
}

/// The model of a [`Triangle`]: three vertices in winding order and a normal.
pub struct TriangleModel {
    pub v0: IntVector,
    pub v1: IntVector,
    pub v2: IntVector,
    pub normal: IntVector,
}

impl TriangleModel {
    /// The vertices have coordinates of magnitude at most [`COORD_MAX`] and the
    /// normal has components of magnitude at most [`NORMAL_MAX`].
    pub open spec fn on_grid(self) -> bool {
        &&& self.v0.within(COORD_MAX as int)
        &&& self.v1.within(COORD_MAX as int)
        &&& self.v2.within(COORD_MAX as int)
        &&& self.normal.within(NORMAL_MAX as int)
    }

    /// A triangle without a normal direction; no ray intersects it.
    pub open spec fn is_degenerate(self) -> bool {
        self.normal.is_zero()
    }
}

/// The face `(v0, v1, v2)` with the normal that `rule` assigns to it.
pub open spec fn face_triangle(rule: NormalRule, v0: IntVector, v1: IntVector, v2: IntVector)
    -> TriangleModel {
    TriangleModel { v0, v1, v2, normal: face_normal(rule, v0, v1, v2) }
}

/// The model of a [`Hit`].
pub struct HitModel {
    pub numer: int,
    pub denom: int,
    pub point: IntVector,
}

impl HitModel {
    /// `self` lies strictly nearer to the ray's origin than `other`: the ray
    /// parameters compare as `self.numer / self.denom < other.numer / other.denom`.
    pub open spec fn nearer_than(self, other: HitModel) -> bool {
        self.numer * other.denom < other.numer * self.denom
    }

    /// The ray parameter is a non-negative fraction with a positive denominator,
    /// and it and the scaled point are within the bounds that the grid implies.
    pub open spec fn in_bounds(self) -> bool {
        &&& 0 < self.denom <= DENOM_MAX
        &&& 0 <= self.numer <= NUMER_MAX
        &&& self.point.within(POINT_MAX as int)
    }

    /// Both hits lie at the same ray parameter.
    pub open spec fn as_near_as(self, other: HitModel) -> bool {
        self.numer * other.denom == other.numer * self.denom
    }
}

/// Whether a ray along `direction` counts as parallel to the planes
/// perpendicular to `normal`: `|u . direction| / UNIT < 1 / EPSILON_INVERSE` for
/// the unit vector `u` along `normal`, stated without the square root as
/// `(EPSILON_INVERSE * (normal . direction))^2 < UNIT^2 * |normal|^2`.
pub open spec fn is_parallel(normal: IntVector, direction: IntVector) -> bool {
    let d = normal.dot(direction);
    (EPSILON_INVERSE * d) * (EPSILON_INVERSE * d) < (UNIT * UNIT) * normal.norm_squared()
}

/// Where the ray meets the plane of the triangle: the ray parameter
/// `(normal . (v0 - origin)) / (normal . direction)` with its sign moved into the
/// numerator, and the point `origin + t * direction` scaled by the denominator.
/// Meaningful when `normal . direction` is not zero.
pub open spec fn plane_hit(tri: TriangleModel, ray: RayModel) -> HitModel {
    let d = tri.normal.dot(ray.direction);
    let n = tri.normal.dot(tri.v0.minus(ray.origin));
    let numer = if d > 0 { n } else { -n };
    let denom = if d > 0 { d } else { -d };
    HitModel {
        numer,
        denom,
        point: ray.origin.scaled(denom).plus(ray.direction.scaled(numer)),
    }
}

/// The side of the edge from `a` to `b` on which the point `p / denom` lies, as
/// seen against `normal`: `normal . ((b - a) x (p - a * denom))`. The value is
/// positive on the inner side of an edge of a face wound counter-clockwise
/// around `normal`, zero on the edge's line and negative beyond it.
pub open spec fn edge_side(normal: IntVector, a: IntVector, b: IntVector, p: IntVector, denom: int)
    -> int {
    normal.dot(b.minus(a).cross(p.minus(a.scaled(denom))))
}

/// The point of `hit` lies on the inner side of, or on, each of the three edges.
pub open spec fn inside_edges(tri: TriangleModel, hit: HitModel) -> bool {
    &&& edge_side(tri.normal, tri.v0, tri.v1, hit.point, hit.denom) >= 0
    &&& edge_side(tri.normal, tri.v1, tri.v2, hit.point, hit.denom) >= 0
    &&& edge_side(tri.normal, tri.v2, tri.v0, hit.point, hit.denom) >= 0
}

/// The intersection of a ray with a triangle.
///
/// There is none when the triangle is degenerate, when the ray is parallel to
/// its plane, when the plane lies behind the ray's origin, or when the plane
/// point lies beyond one of the edges. Otherwise it is the plane point.
pub open spec fn intersection(tri: TriangleModel, ray: RayModel) -> Option<HitModel> {
    let hit = plane_hit(tri, ray);
    if tri.is_degenerate() || is_parallel(tri.normal, ray.direction) {
        None
    } else if hit.numer < 0 {
        None
    } else if !inside_edges(tri, hit) {
        None
    } else {
        Some(hit)
    }
}

/// A ray that is not parallel to a non-degenerate triangle's plane has a
/// direction with a non-zero component along the normal.
pub proof fn lemma_not_parallel_crosses_plane(normal: IntVector, direction: IntVector)
    requires
        !normal.is_zero(),
        !is_parallel(normal, direction),
    ensures
        normal.dot(direction) != 0,
{
    lemma_norm_squared_positive(normal);
    let d = normal.dot(direction);
    let s = normal.norm_squared();
    assert(d == 0 ==> (EPSILON_INVERSE * d) * (EPSILON_INVERSE * d) == 0) by (nonlinear_arith);
    assert(s > 0 ==> (UNIT * UNIT) * s > 0) by (nonlinear_arith);
}

/// A hit has a ray parameter that is not negative, over a positive denominator.
pub proof fn lemma_hit_has_positive_denominator(tri: TriangleModel, ray: RayModel)
    requires
        intersection(tri, ray) is Some,
    ensures
        intersection(tri, ray).unwrap().denom > 0,
        intersection(tri, ray).unwrap().numer >= 0,
{
    lemma_not_parallel_crosses_plane(tri.normal, ray.direction);
}

/// On the grid, the plane point of a ray has a ray parameter and a scaled point
/// within the bounds of [`DENOM_MAX`], [`NUMER_MAX`] and [`POINT_MAX`].
pub proof fn lemma_plane_hit_bounds(tri: TriangleModel, ray: RayModel)
    requires
        tri.on_grid(),
        ray.on_grid(),
    ensures
        0 <= plane_hit(tri, ray).denom <= DENOM_MAX,
        -NUMER_MAX <= plane_hit(tri, ray).numer <= NUMER_MAX,
        plane_hit(tri, ray).point.within(POINT_MAX as int),
{
    let hit = plane_hit(tri, ray);
    lemma_dot_bound(tri.normal, ray.direction, NORMAL_MAX as int, COORD_MAX as int);
    lemma_dot_bound(tri.normal, tri.v0.minus(ray.origin), NORMAL_MAX as int, 2 * COORD_MAX);
    lemma_scaled_bound(ray.origin, hit.denom, COORD_MAX as int, DENOM_MAX as int);
    lemma_scaled_bound(ray.direction, hit.numer, COORD_MAX as int, NUMER_MAX as int);
}

/// An intersection point on a ray.
///
/// The ray parameter is `numer / denom` with `denom > 0` and `numer >= 0`; the
/// fraction is not reduced. The point is `point / denom`, component by component,
/// in grid coordinates.
#[derive(Clone, Copy, Debug, PartialEq, Eq, Structural)]
pub struct Hit {
    pub numer: i128,
    pub denom: i128,
    pub point: Vector3,
}

impl View for Hit {
    type V = HitModel;

    open spec fn view(&self) -> HitModel {
        HitModel { numer: self.numer as int, denom: self.denom as int, point: self.point@ }
    }
}

/// A triangle on the grid: three vertices in winding order and a face normal.
///
/// The normal is kept unnormalised; the unit normal is the stored vector divided
/// by its length. A triangle whose normal is the zero vector is degenerate.
#[derive(Clone, Copy, Debug, PartialEq, Eq)]
pub struct Triangle {
    vertices: [Vector3; 3],
    normal: Vector3,
}

impl View for Triangle {
    type V = TriangleModel;

    closed spec fn view(&self) -> TriangleModel {
        TriangleModel {
            v0: self.vertices[0]@,
            v1: self.vertices[1]@,
            v2: self.vertices[2]@,
            normal: self.normal@,
        }
    }
}

/// The models of a sequence of triangles, in order.
pub open spec fn models(triangles: Seq<Triangle>) -> Seq<TriangleModel> {
    Seq::new(triangles.len(), |i: int| triangles[i]@)
}

/// The side of an edge on which a scaled point lies.
fn edge_side_of(normal: Vector3, a: Vector3, b: Vector3, p: Vector3, denom: i128) -> (side: i128)
    requires
        normal@.within(NORMAL_MAX as int),
        a@.within(COORD_MAX as int),
        b@.within(COORD_MAX as int),
        p@.within(POINT_MAX as int),
        0 <= denom <= DENOM_MAX,
    ensures
        side == edge_side(normal@, a@, b@, p@, denom as int),
{
    proof {
        lemma_max_abs_within(a@, COORD_MAX as int);
        lemma_max_abs_within(b@, COORD_MAX as int);
        lemma_max_abs_within(p@, POINT_MAX as int);
        lemma_product_bound(a@.max_abs(), denom as int, COORD_MAX as int, DENOM_MAX as int);
        lemma_scaled_bound(a@, denom as int, COORD_MAX as int, DENOM_MAX as int);
    }
    let foot: Vector3 = a.scale(denom);
    proof {
        lemma_max_abs_within(foot@, COORD_MAX * DENOM_MAX);
    }
    let to_point: Vector3 = p.minus(foot);
    let edge: Vector3 = b.minus(a);
    proof {
        lemma_operands_fit(edge@, to_point@, 2 * COORD_MAX, POINT_MAX + COORD_MAX * DENOM_MAX);
        lemma_cross_bound(edge@, to_point@, 2 * COORD_MAX, POINT_MAX + COORD_MAX * DENOM_MAX);
    }
    let turn: Vector3 = edge.cross(to_point);
    proof {
        lemma_operands_fit(
            normal@,
            turn@,
            NORMAL_MAX as int,
            2 * ((2 * COORD_MAX) * (POINT_MAX + COORD_MAX * DENOM_MAX)),
        );
    }
    normal.dot(turn)
}

impl Triangle {
    #[verifier::type_invariant]
    spec fn well_formed(self) -> bool {
        self@.on_grid()
    }

    /// The triangle with the given vertices and normal, or `None` when a vertex
    /// or the normal lies outside the bounds of the grid.
    pub fn new(v0: Vector3, v1: Vector3, v2: Vector3, normal: Vector3) -> (tri: Option<Triangle>)
        ensures
            tri is Some <==> (TriangleModel { v0: v0@, v1: v1@, v2: v2@, normal: normal@ }).on_grid(),
            tri matches Some(t) ==> t@ == (TriangleModel {
                v0: v0@,
                v1: v1@,
                v2: v2@,
                normal: normal@,
            }),
    {
        if v0.is_within(COORD_MAX) && v1.is_within(COORD_MAX) && v2.is_within(COORD_MAX)
            && normal.is_within(NORMAL_MAX) {
            Some(Triangle { vertices: [v0, v1, v2], normal })
        } else {
            None
        }
    }

    /// The triangle with the given vertices and the normal that `rule` assigns
    /// to them, or `None` when a vertex lies outside the grid.
    pub fn from_vertices(v0: Vector3, v1: Vector3, v2: Vector3, rule: NormalRule) -> (tri: Option<
        Triangle,
    >)
        ensures
            tri is Some <==> v0@.within(COORD_MAX as int) && v1@.within(COORD_MAX as int)
                && v2@.within(COORD_MAX as int),
            tri matches Some(t) ==> t@ == face_triangle(rule, v0@, v1@, v2@),
    {
        if !(v0.is_within(COORD_MAX) && v1.is_within(COORD_MAX) && v2.is_within(COORD_MAX)) {
            return None;
        }
        proof {
            lemma_max_abs_within(v0@, COORD_MAX as int);
            lemma_max_abs_within(v1@, COORD_MAX as int);
            lemma_max_abs_within(v2@, COORD_MAX as int);
        }
        let normal: Vector3 = match rule {
            NormalRule::Positions => {
                proof {
                    lemma_operands_fit(v0@, v1@, COORD_MAX as int, COORD_MAX as int);
                    lemma_cross_bound(v0@, v1@, COORD_MAX as int, COORD_MAX as int);
                }
                v0.cross(v1)
            },
            NormalRule::Edges => {
                let first: Vector3 = v1.minus(v0);
                let second: Vector3 = v2.minus(v0);
                proof {
                    lemma_operands_fit(first@, second@, 2 * COORD_MAX, 2 * COORD_MAX);
                    lemma_cross_bound(first@, second@, 2 * COORD_MAX, 2 * COORD_MAX);
                }
                first.cross(second)
            },
        };
        Some(Triangle { vertices: [v0, v1, v2], normal })
    }

    /// The three vertices in winding order.
    pub fn vertices(&self) -> (vertices: [Vector3; 3])
        ensures
            vertices[0]@ == self@.v0,
            vertices[1]@ == self@.v1,
            vertices[2]@ == self@.v2,
            self@.on_grid(),
    {
        proof {
            use_type_invariant(self);
        }
        self.vertices
    }

    /// The face normal, unnormalised.
    pub fn normal(&self) -> (normal: Vector3)
        ensures
            normal@ == self@.normal,
            self@.on_grid(),
    {
        proof {
            use_type_invariant(self);
        }
        self.normal
    }

    /// Whether the normal is the zero vector.
    pub fn is_degenerate(&self) -> (degenerate: bool)
        ensures
            degenerate == self@.is_degenerate(),
    {
        self.normal.is_zero()
    }

    /// Intersects `ray` with this triangle.
    ///
    /// The result is the point where the ray crosses the plane of the triangle,
    /// with its ray parameter, when the triangle is not degenerate, the ray is
    /// not parallel to the plane, the plane does not lie behind the ray's
    /// origin and the point lies beyond none of the three edges. A point on an
    /// edge or a vertex counts as inside, so a ray through an edge that two
    /// triangles share hits both.
    pub fn intersects_ray(&self, ray: &Ray) -> (result: Option<Hit>)
        ensures
            match result {
                Some(hit) => intersection(self@, ray@) == Some(hit@),
                None => intersection(self@, ray@) is None,
            },
            result matches Some(hit) ==> hit@.in_bounds(),
    {
        let normal: Vector3 = self.normal;
        let v0: Vector3 = self.vertices[0];
        let v1: Vector3 = self.vertices[1];
        let v2: Vector3 = self.vertices[2];
        let origin: Vector3 = ray.origin();
        let direction: Vector3 = ray.direction();
        proof {
            use_type_invariant(self);
            lemma_max_abs_within(normal@, NORMAL_MAX as int);
            lemma_max_abs_within(v0@, COORD_MAX as int);
            lemma_max_abs_within(origin@, COORD_MAX as int);
            lemma_max_abs_within(direction@, COORD_MAX as int);
            lemma_plane_hit_bounds(self@, ray@);
        }
        if normal.is_zero() {
            return None;
        }
        proof {
            lemma_operands_fit(normal@, direction@, NORMAL_MAX as int, COORD_MAX as int);
            lemma_dot_bound(normal@, direction@, NORMAL_MAX as int, COORD_MAX as int);
            lemma_operands_fit(normal@, normal@, NORMAL_MAX as int, NORMAL_MAX as int);
            lemma_dot_bound(normal@, normal@, NORMAL_MAX as int, NORMAL_MAX as int);
        }
        let along: i128 = normal.dot(direction);
        let length_squared: i128 = normal.dot(normal);
        let scaled_along: i128 = EPSILON_INVERSE * along;
        proof {
            lemma_product_bound(
                scaled_along as int,
                scaled_along as int,
                EPSILON_INVERSE * DENOM_MAX,
                EPSILON_INVERSE * DENOM_MAX,
            );
            lemma_product_bound(
                UNIT * UNIT,
                length_squared as int,
                UNIT * UNIT,
                3 * (NORMAL_MAX * NORMAL_MAX),
            );
        }
        if scaled_along * scaled_along < (UNIT * UNIT) * length_squared {
            return None;
        }
        proof {
            lemma_not_parallel_crosses_plane(normal@, direction@);
        }
        let to_plane: Vector3 = v0.minus(origin);
        proof {
            lemma_operands_fit(normal@, to_plane@, NORMAL_MAX as int, 2 * COORD_MAX);
        }
        let offset: i128 = normal.dot(to_plane);
        let numer: i128 = if along > 0 { offset } else { -offset };
        let denom: i128 = if along > 0 { along } else { -along };
        if numer < 0 {
            return None;
        }
        proof {
            lemma_product_bound(origin@.max_abs(), denom as int, COORD_MAX as int, DENOM_MAX as int);
            lemma_product_bound(
                direction@.max_abs(),
                numer as int,
                COORD_MAX as int,
                NUMER_MAX as int,
            );
            lemma_scaled_bound(origin@, denom as int, COORD_MAX as int, DENOM_MAX as int);
            lemma_scaled_bound(direction@, numer as int, COORD_MAX as int, NUMER_MAX as int);
        }
        let from_origin: Vector3 = origin.scale(denom);
        let travelled: Vector3 = direction.scale(numer);
        proof {
            lemma_max_abs_within(from_origin@, COORD_MAX * DENOM_MAX);
            lemma_max_abs_within(travelled@, COORD_MAX * NUMER_MAX);
        }
        let point: Vector3 = from_origin.plus(travelled);
        if edge_side_of(normal, v0, v1, point, denom) < 0 {
            return None;
        }
        if edge_side_of(normal, v1, v2, point, denom) < 0 {
            return None;
        }
        if edge_side_of(normal, v2, v0, point, denom) < 0 {
            return None;
        }
        Some(Hit { numer, denom, point })
    }
}

} // verus!
