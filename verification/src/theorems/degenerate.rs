//! Faces without area.
use crate::algebra::{lemma_cross_scaled, lemma_cross_self};
use crate::ray::RayModel;
use crate::triangle::{face_normal, face_triangle, intersection, NormalRule, TriangleModel};
use crate::vector::IntVector;
use vstd::prelude::*;

verus! {

/// A degenerate triangle, one whose normal is the zero vector, is intersected
/// by no ray.
pub proof fn lemma_degenerate_triangle_misses(tri: TriangleModel, ray: RayModel)
    requires
        tri.is_degenerate(),
    ensures
        intersection(tri, ray) is None,
{
}

/// The three points lie on one line or coincide: some multiple of the first
/// edge equals some multiple of the second, not both multiples being zero.
pub open spec fn collinear(v0: IntVector, v1: IntVector, v2: IntVector) -> bool {
    exists|p: int, q: int|
        (p != 0 || q != 0) && #[trigger] v1.minus(v0).scaled(p) == #[trigger] v2.minus(v0).scaled(
            q,
        )
}

/// A face with a repeated vertex, or with its vertices on one line, has the zero
/// vector for its normal by the rule of the edges.
pub proof fn lemma_collinear_face_is_degenerate(v0: IntVector, v1: IntVector, v2: IntVector)
    requires
        v0 == v1 || v1 == v2 || v0 == v2 || collinear(v0, v1, v2),
    ensures
        face_normal(NormalRule::Edges, v0, v1, v2).is_zero(),
{
    let first = v1.minus(v0);
    let second = v2.minus(v0);
    let normal = first.cross(second);
    if v0 == v1 {
        assert(first == IntVector::zero());
        assert(normal.is_zero()) by (nonlinear_arith)
            requires
                normal == first.cross(second),
                first.x == 0 && first.y == 0 && first.z == 0,
        ;
    } else if v0 == v2 {
        assert(second == IntVector::zero());
        assert(normal.is_zero()) by (nonlinear_arith)
            requires
                normal == first.cross(second),
                second.x == 0 && second.y == 0 && second.z == 0,
        ;
    } else if v1 == v2 {
        lemma_cross_self(first);
    } else {
        let (p, q) = choose|p: int, q: int|
            (p != 0 || q != 0) && #[trigger] v1.minus(v0).scaled(p) == #[trigger] v2.minus(
                v0,
            ).scaled(q);
        lemma_cross_scaled(first, second, p);
        lemma_cross_scaled(first, second, q);
        lemma_cross_scaled(second, second, q);
        lemma_cross_scaled(first, first, p);
        assert(normal.scaled(p) == second.scaled(q).cross(second));
        assert(normal.scaled(q) == first.cross(first.scaled(p)));
        assert(normal.scaled(p).is_zero() && normal.scaled(q).is_zero()) by (nonlinear_arith)
            requires
                normal.scaled(p) == second.cross(second).scaled(q),
                normal.scaled(q) == first.cross(first).scaled(p),
                first.cross(first).is_zero(),
                second.cross(second).is_zero(),
        ;
        assert(normal.is_zero()) by (nonlinear_arith)
            requires
                p != 0 || q != 0,
                normal.x * p == 0 && normal.y * p == 0 && normal.z * p == 0,
                normal.x * q == 0 && normal.y * q == 0 && normal.z * q == 0,
        ;
    }
}

/// A triangle of no area, whose normal follows the rule of the edges, is
/// intersected by no ray.
pub proof fn lemma_zero_area_triangle_misses(
    v0: IntVector,
    v1: IntVector,
    v2: IntVector,
    ray: RayModel,
)
    requires
        v0 == v1 || v1 == v2 || v0 == v2 || collinear(v0, v1, v2),
    ensures
        intersection(face_triangle(NormalRule::Edges, v0, v1, v2), ray) is None,
{
    lemma_collinear_face_is_degenerate(v0, v1, v2);
}

/// A face whose first two vertices coincide, or lie on one line through the
/// coordinate origin, has the zero vector for its normal by the rule of the
/// positions, and is intersected by no ray.
pub proof fn lemma_aligned_positions_triangle_misses(
    v0: IntVector,
    v1: IntVector,
    v2: IntVector,
    ray: RayModel,
    p: int,
    q: int,
)
    requires
        p != 0 || q != 0,
        v0.scaled(p) == v1.scaled(q),
    ensures
        face_normal(NormalRule::Positions, v0, v1, v2).is_zero(),
        intersection(face_triangle(NormalRule::Positions, v0, v1, v2), ray) is None,
{
    let normal = v0.cross(v1);
    lemma_cross_scaled(v0, v1, p);
    lemma_cross_scaled(v0, v1, q);
    lemma_cross_scaled(v1, v1, q);
    lemma_cross_scaled(v0, v0, p);
    assert(normal.scaled(p) == v1.scaled(q).cross(v1));
    assert(normal.scaled(q) == v0.cross(v0.scaled(p)));
    assert(normal.scaled(p).is_zero() && normal.scaled(q).is_zero()) by (nonlinear_arith)
        requires
            normal.scaled(p) == v1.cross(v1).scaled(q),
            normal.scaled(q) == v0.cross(v0).scaled(p),
            v0.cross(v0).is_zero(),
            v1.cross(v1).is_zero(),
    ;
    assert(normal.is_zero()) by (nonlinear_arith)
        requires
            p != 0 || q != 0,
            normal.x * p == 0 && normal.y * p == 0 && normal.z * p == 0,
            normal.x * q == 0 && normal.y * q == 0 && normal.z * q == 0,
    ;
}

} // verus!
