//! The intersection test: when it fails, when it succeeds, and what it returns.
use crate::algebra::{
    lemma_cross_scaled, lemma_dot_distributes, lemma_dot_scaled, lemma_scaled_distributes,
};
use crate::grid::{EPSILON_INVERSE, UNIT};
use crate::ray::RayModel;
use crate::triangle::{
    edge_side, inside_edges, intersection, is_parallel, lemma_not_parallel_crosses_plane,
    plane_hit, HitModel, TriangleModel,
};
use crate::vector::IntVector;
use vstd::prelude::*;

verus! {

/// A ray that is parallel to the plane of a triangle, by the threshold of the
/// test, does not intersect the triangle.
pub proof fn lemma_parallel_ray_misses(tri: TriangleModel, ray: RayModel)
    requires
        is_parallel(tri.normal, ray.direction),
    ensures
        intersection(tri, ray) is None,
{
}

/// For a normal of length one, the parallel test compares the dot product of
/// normal and direction, in world units, with the threshold itself:
/// `|normal . direction| / UNIT < 1 / EPSILON_INVERSE`.
pub proof fn lemma_parallel_for_unit_normal(normal: IntVector, direction: IntVector)
    requires
        normal.norm_squared() == 1,
    ensures
        is_parallel(normal, direction) <==> -UNIT < EPSILON_INVERSE * normal.dot(direction) < UNIT,
{
    let e = EPSILON_INVERSE * normal.dot(direction);
    assert(e * e < 1000 * 1000 <==> -1000 < e < 1000) by (nonlinear_arith);
}

/// The triangle `tri` with its normal stretched by `k`.
pub open spec fn with_normal_scaled(tri: TriangleModel, k: int) -> TriangleModel {
    TriangleModel { v0: tri.v0, v1: tri.v1, v2: tri.v2, normal: tri.normal.scaled(k) }
}

/// The hit `hit` with numerator, denominator and scaled point stretched by `k`:
/// the same ray parameter and the same point.
pub open spec fn stretched_hit(hit: HitModel, k: int) -> HitModel {
    HitModel { numer: k * hit.numer, denom: k * hit.denom, point: hit.point.scaled(k) }
}

/// The length of the normal is immaterial: a triangle whose normal is stretched
/// by a positive factor is hit by the same rays, at the same ray parameter and
/// in the same point. The test thus decides as it would with the unit normal.
pub proof fn lemma_normal_length_is_immaterial(tri: TriangleModel, ray: RayModel, k: int)
    requires
        k > 0,
    ensures
        intersection(with_normal_scaled(tri, k), ray) is Some <==> intersection(tri, ray) is Some,
        intersection(tri, ray) matches Some(hit) ==> intersection(with_normal_scaled(tri, k), ray)
            == Some(stretched_hit(hit, k)),
{
    let stretched = with_normal_scaled(tri, k);
    let n = tri.normal;
    let d = n.dot(ray.direction);
    let off = n.dot(tri.v0.minus(ray.origin));
    let hit = plane_hit(tri, ray);
    let hit_k = plane_hit(stretched, ray);
    lemma_dot_scaled(n, ray.direction, k);
    lemma_dot_scaled(n, tri.v0.minus(ray.origin), k);
    lemma_dot_scaled(n, n.scaled(k), k);
    lemma_dot_scaled(n, n, k);
    assert(n.scaled(k).is_zero() <==> n.is_zero()) by (nonlinear_arith)
        requires
            k > 0,
    {
        assert(n.x * k == 0 <==> n.x == 0);
        assert(n.y * k == 0 <==> n.y == 0);
        assert(n.z * k == 0 <==> n.z == 0);
    }
    assert(is_parallel(n.scaled(k), ray.direction) <==> is_parallel(n, ray.direction)) by {
        let e = EPSILON_INVERSE * d;
        let s = n.norm_squared();
        assert(n.scaled(k).norm_squared() == k * (k * s));
        assert((EPSILON_INVERSE * (k * d)) * (EPSILON_INVERSE * (k * d)) == (k * k) * (e * e))
            by (nonlinear_arith)
            requires
                e == EPSILON_INVERSE * d,
        ;
        assert((UNIT * UNIT) * (k * (k * s)) == (k * k) * ((UNIT * UNIT) * s)) by (nonlinear_arith);
        assert(((k * k) * (e * e) < (k * k) * ((UNIT * UNIT) * s)) <==> (e * e < (UNIT * UNIT)
            * s)) by (nonlinear_arith)
            requires
                k > 0,
        ;
    }
    assert((k * d > 0 <==> d > 0) && (k * d == 0 <==> d == 0)) by (nonlinear_arith)
        requires
            k > 0,
    ;
    assert(-(k * off) == k * (-off) && -(k * d) == k * (-d)) by (nonlinear_arith);
    assert(hit_k.numer == k * hit.numer);
    assert(hit_k.denom == k * hit.denom);
    assert(k * hit.numer < 0 <==> hit.numer < 0) by (nonlinear_arith)
        requires
            k > 0,
    ;
    assert(hit_k.point == hit.point.scaled(k)) by {
        lemma_scaled_distributes(ray.origin, ray.direction, hit.denom, k);
        lemma_scaled_distributes(ray.origin.scaled(hit.denom), ray.direction.scaled(hit.numer), k, 1);
        lemma_scaled_distributes(ray.direction, ray.direction, hit.numer, k);
        assert(hit.denom * k == k * hit.denom && hit.numer * k == k * hit.numer)
            by (nonlinear_arith);
    }
    assert forall|a: IntVector, b: IntVector|
        (#[trigger] edge_side(n.scaled(k), a, b, hit_k.point, hit_k.denom) >= 0) <==> (edge_side(
            n,
            a,
            b,
            hit.point,
            hit.denom,
        ) >= 0) by {
        let inner = hit.point.minus(a.scaled(hit.denom));
        let turn = b.minus(a).cross(inner);
        lemma_scaled_distributes(a, a, hit.denom, k);
        assert(hit.denom * k == k * hit.denom) by (nonlinear_arith);
        lemma_scaled_distributes(hit.point, a.scaled(hit.denom), k, 1);
        assert(hit_k.point.minus(a.scaled(hit_k.denom)) == inner.scaled(k));
        lemma_cross_scaled(b.minus(a), inner, k);
        lemma_dot_scaled(n, turn.scaled(k), k);
        lemma_dot_scaled(n, turn, k);
        let side = n.dot(turn);
        assert(edge_side(n.scaled(k), a, b, hit_k.point, hit_k.denom) == k * (k * side));
        assert((k * (k * side) >= 0) <==> (side >= 0)) by (nonlinear_arith)
            requires
                k > 0,
        ;
    }
    assert(inside_edges(stretched, hit_k) <==> inside_edges(tri, hit));
}

/// Where a ray crosses the plane of a triangle, the plane point lies on the ray
/// and on the plane, and its ray parameter solves the plane equation:
/// `t * (normal . direction) == normal . (v0 - origin)`.
pub proof fn lemma_plane_hit_is_exact(tri: TriangleModel, ray: RayModel)
    requires
        tri.normal.dot(ray.direction) != 0,
    ensures
        plane_hit(tri, ray).denom > 0,
        plane_hit(tri, ray).numer * tri.normal.dot(ray.direction) == plane_hit(tri, ray).denom
            * tri.normal.dot(tri.v0.minus(ray.origin)),
        plane_hit(tri, ray).point == ray.origin.scaled(plane_hit(tri, ray).denom).plus(
            ray.direction.scaled(plane_hit(tri, ray).numer),
        ),
        tri.normal.dot(plane_hit(tri, ray).point.minus(tri.v0.scaled(plane_hit(tri, ray).denom)))
            == 0,
{
    let n = tri.normal;
    let d = n.dot(ray.direction);
    let off = n.dot(tri.v0.minus(ray.origin));
    let hit = plane_hit(tri, ray);
    assert(hit.numer * d == hit.denom * off) by (nonlinear_arith)
        requires
            (hit.numer == off && hit.denom == d) || (hit.numer == -off && hit.denom == -d),
    ;
    let from_v0 = hit.point.minus(tri.v0.scaled(hit.denom));
    assert(from_v0 == ray.direction.scaled(hit.numer).minus(
        tri.v0.minus(ray.origin).scaled(hit.denom),
    )) by {
        lemma_scaled_distributes(tri.v0, ray.origin, hit.denom, 1);
    }
    lemma_dot_scaled(n, ray.direction, hit.numer);
    lemma_dot_scaled(n, tri.v0.minus(ray.origin), hit.denom);
    assert(n.dot(from_v0) == n.dot(ray.direction.scaled(hit.numer)) - n.dot(
        tri.v0.minus(ray.origin).scaled(hit.denom),
    )) by {
        lemma_dot_distributes(
            n,
            ray.direction.scaled(hit.numer),
            tri.v0.minus(ray.origin).scaled(hit.denom),
        );
    }
}

/// A ray whose plane point lies strictly beyond an edge of the triangle does
/// not intersect the triangle.
pub proof fn lemma_point_outside_misses(tri: TriangleModel, ray: RayModel)
    requires
        !inside_edges(tri, plane_hit(tri, ray)),
    ensures
        intersection(tri, ray) is None,
{
}

/// A ray that crosses the plane of a triangle in front of its origin, in a
/// point on the inner side of all three edges, intersects the triangle in that
/// point, at the ray parameter that solves the plane equation.
pub proof fn lemma_point_inside_hits(tri: TriangleModel, ray: RayModel)
    requires
        !tri.is_degenerate(),
        !is_parallel(tri.normal, ray.direction),
        plane_hit(tri, ray).numer >= 0,
        inside_edges(tri, plane_hit(tri, ray)),
    ensures
        intersection(tri, ray) == Some(plane_hit(tri, ray)),
        plane_hit(tri, ray).denom > 0,
        plane_hit(tri, ray).numer * tri.normal.dot(ray.direction) == plane_hit(tri, ray).denom
            * tri.normal.dot(tri.v0.minus(ray.origin)),
        plane_hit(tri, ray).point == ray.origin.scaled(plane_hit(tri, ray).denom).plus(
            ray.direction.scaled(plane_hit(tri, ray).numer),
        ),
{
    lemma_not_parallel_crosses_plane(tri.normal, ray.direction);
    lemma_plane_hit_is_exact(tri, ray);
}

} // verus!
