//! The edge tests as barycentric weights: a ray intersects a face with the
//! normal of its edges exactly when it crosses the plane of the face, in front
//! of its origin and not parallel, in a point of the closed triangle.
use crate::algebra::{
    lemma_cross_distributes, lemma_cross_scaled, lemma_cross_self, lemma_cross_swap,
    lemma_dot_distributes, lemma_dot_scaled, lemma_expand_in_basis, lemma_norm_squared_positive,
    lemma_product_of_three, lemma_scaled_distributes, lemma_triple_product,
};
use crate::ray::RayModel;
use crate::theorems::intersection::lemma_plane_hit_is_exact;
use crate::triangle::{
    edge_side, face_normal, face_triangle, intersection, is_parallel,
    lemma_not_parallel_crosses_plane, plane_hit, NormalRule,
};
use crate::vector::IntVector;
use vstd::prelude::*;

verus! {

/// The three edge tests of a face with the normal of its edges, read in the
/// basis of the two edges `e1 = v1 - v0` and `e2 = v2 - v0`: for the vector
/// `w = p - v0 * denom` from the first vertex to the point, the test at the
/// first edge is `n . (e1 x w)`, the test at the third is `n . (w x e2)`, and
/// the three tests add up to `denom * |n|^2`.
pub proof fn lemma_edge_sides_in_basis(
    v0: IntVector,
    v1: IntVector,
    v2: IntVector,
    p: IntVector,
    denom: int,
)
    ensures
        ({
            let e1 = v1.minus(v0);
            let e2 = v2.minus(v0);
            let n = e1.cross(e2);
            let w = p.minus(v0.scaled(denom));
            &&& edge_side(n, v0, v1, p, denom) == n.dot(e1.cross(w))
            &&& edge_side(n, v2, v0, p, denom) == n.dot(w.cross(e2))
            &&& edge_side(n, v1, v2, p, denom) + edge_side(n, v2, v0, p, denom) + edge_side(
                n,
                v0,
                v1,
                p,
                denom,
            ) == denom * n.norm_squared()
        }),
{
    let e1 = v1.minus(v0);
    let e2 = v2.minus(v0);
    let n = e1.cross(e2);
    let w = p.minus(v0.scaled(denom));
    lemma_scaled_distributes(v0, e1, denom, 1);
    lemma_scaled_distributes(v0, e2, denom, 1);
    assert(v0.plus(e1) == v1 && v0.plus(e2) == v2);
    // The third edge runs from v2 to v0.
    let from_v2 = p.minus(v2.scaled(denom));
    assert(from_v2 == w.minus(e2.scaled(denom)));
    assert(v0.minus(v2) == e2.scaled(-1));
    lemma_cross_scaled(e2, from_v2, -1);
    lemma_cross_distributes(e2, w, e2.scaled(denom));
    lemma_cross_scaled(e2, e2, denom);
    assert(e2.cross(e2).scaled(denom) == IntVector::zero()) by (nonlinear_arith)
        requires
            e2.cross(e2).is_zero(),
    ;
    assert(v0.minus(v2).cross(from_v2) == w.cross(e2));
    // The second edge runs from v1 to v2.
    let from_v1 = p.minus(v1.scaled(denom));
    assert(from_v1 == w.minus(e1.scaled(denom)));
    assert(v2.minus(v1) == e2.minus(e1));
    lemma_cross_distributes(from_v1, e2, e1);
    lemma_cross_distributes(e2, w, e1.scaled(denom));
    lemma_cross_distributes(e1, w, e1.scaled(denom));
    lemma_cross_scaled(e2, e1, denom);
    lemma_cross_scaled(e1, e1, denom);
    assert(e1.cross(e1).scaled(denom) == IntVector::zero()) by (nonlinear_arith)
        requires
            e1.cross(e1).is_zero(),
    ;
    let turn = v2.minus(v1).cross(from_v1);
    assert(turn == w.cross(e2).scaled(-1).plus(n.scaled(denom)).minus(e1.cross(w))) by {
        assert(n.scaled(-1).scaled(denom) == n.scaled(denom).scaled(-1)) by {
            lemma_scaled_distributes(n, n, -1, denom);
        }
    }
    lemma_dot_distributes(n, w.cross(e2).scaled(-1).plus(n.scaled(denom)), e1.cross(w));
    lemma_dot_distributes(n, w.cross(e2).scaled(-1), n.scaled(denom));
    lemma_dot_scaled(n, w.cross(e2), -1);
    lemma_dot_scaled(n, n, denom);
}

/// One coordinate of the step from the basis of the edges to the weights of
/// the vertices.
proof fn lemma_weigh_coordinate(
    x0: int,
    x1: int,
    x2: int,
    px: int,
    denom: int,
    s: int,
    a: int,
    b: int,
    c: int,
)
    requires
        a + b + c == denom * s,
        (px - x0 * denom) * s == (x1 - x0) * b + (x2 - x0) * c,
    ensures
        px * s == x0 * a + x1 * b + x2 * c,
{
    assert((px - x0 * denom) * s == px * s - (x0 * denom) * s) by (nonlinear_arith);
    assert((x1 - x0) * b == x1 * b - x0 * b) by (nonlinear_arith);
    assert((x2 - x0) * c == x2 * c - x0 * c) by (nonlinear_arith);
    assert(x0 * (a + b + c) == x0 * a + x0 * b + x0 * c) by (nonlinear_arith);
    lemma_product_of_three(x0, denom, s);
}

/// The edge tests are barycentric weights. For a face with the normal of its
/// edges and a point `p / denom` of its plane, the three tests add up to
/// `denom * |n|^2` and weigh the vertices so as to give the point:
/// `|n|^2 * p = a * v0 + b * v1 + c * v2`, where each weight is the test at the
/// edge opposite its vertex.
pub proof fn lemma_edge_sides_weigh_the_vertices(
    v0: IntVector,
    v1: IntVector,
    v2: IntVector,
    p: IntVector,
    denom: int,
)
    requires
        face_normal(NormalRule::Edges, v0, v1, v2).dot(p.minus(v0.scaled(denom))) == 0,
    ensures
        ({
            let n = face_normal(NormalRule::Edges, v0, v1, v2);
            let a = edge_side(n, v1, v2, p, denom);
            let b = edge_side(n, v2, v0, p, denom);
            let c = edge_side(n, v0, v1, p, denom);
            &&& a + b + c == denom * n.norm_squared()
            &&& p.scaled(n.norm_squared()) == v0.scaled(a).plus(v1.scaled(b)).plus(v2.scaled(c))
        }),
{
    let e1 = v1.minus(v0);
    let e2 = v2.minus(v0);
    let n = e1.cross(e2);
    let s = n.norm_squared();
    let w = p.minus(v0.scaled(denom));
    let a = edge_side(n, v1, v2, p, denom);
    let b = edge_side(n, v2, v0, p, denom);
    let c = edge_side(n, v0, v1, p, denom);
    lemma_edge_sides_in_basis(v0, v1, v2, p, denom);
    lemma_expand_in_basis(e1, e2, w);
    assert(n.scaled(0) == IntVector::zero());
    assert(w.scaled(s) == e1.scaled(b).plus(e2.scaled(c)));
    lemma_weigh_coordinate(v0.x, v1.x, v2.x, p.x, denom, s, a, b, c);
    lemma_weigh_coordinate(v0.y, v1.y, v2.y, p.y, denom, s, a, b, c);
    lemma_weigh_coordinate(v0.z, v1.z, v2.z, p.z, denom, s, a, b, c);
}

/// A hit lies in the triangle. Where a ray intersects a face with the normal of
/// its edges, the point of intersection is a weighted mean of the three
/// vertices: with the weights `a, b, c` of the edge tests, none of them negative
/// and their sum `denom * |n|^2` positive,
/// `(a + b + c) * P = a * v0 + b * v1 + c * v2` for the point `P = point / denom`.
pub proof fn lemma_hit_lies_in_triangle(v0: IntVector, v1: IntVector, v2: IntVector, ray: RayModel)
    requires
        intersection(face_triangle(NormalRule::Edges, v0, v1, v2), ray) is Some,
    ensures
        ({
            let n = face_normal(NormalRule::Edges, v0, v1, v2);
            let hit = intersection(face_triangle(NormalRule::Edges, v0, v1, v2), ray).unwrap();
            let a = edge_side(n, v1, v2, hit.point, hit.denom);
            let b = edge_side(n, v2, v0, hit.point, hit.denom);
            let c = edge_side(n, v0, v1, hit.point, hit.denom);
            &&& a >= 0 && b >= 0 && c >= 0
            &&& a + b + c == hit.denom * n.norm_squared()
            &&& a + b + c > 0
            &&& hit.point.scaled(n.norm_squared()) == v0.scaled(a).plus(v1.scaled(b)).plus(
                v2.scaled(c),
            )
        }),
{
    let n = face_normal(NormalRule::Edges, v0, v1, v2);
    let tri = face_triangle(NormalRule::Edges, v0, v1, v2);
    let hit = intersection(tri, ray).unwrap();
    lemma_not_parallel_crosses_plane(n, ray.direction);
    lemma_plane_hit_is_exact(tri, ray);
    lemma_edge_sides_weigh_the_vertices(v0, v1, v2, hit.point, hit.denom);
    lemma_norm_squared_positive(n);
    assert(hit.denom * n.norm_squared() > 0) by (nonlinear_arith)
        requires
            hit.denom > 0,
            n.norm_squared() > 0,
    ;
}

/// One coordinate of the step from the weights of the vertices to the basis of
/// the edges.
proof fn lemma_unweigh_coordinate(
    x0: int,
    x1: int,
    x2: int,
    px: int,
    denom: int,
    m: int,
    a: int,
    b: int,
    c: int,
)
    requires
        a + b + c == m * denom,
        px * m == x0 * a + x1 * b + x2 * c,
    ensures
        (px - x0 * denom) * m == (x1 - x0) * b + (x2 - x0) * c,
{
    assert((px - x0 * denom) * m == px * m - (x0 * denom) * m) by (nonlinear_arith);
    assert((x1 - x0) * b == x1 * b - x0 * b) by (nonlinear_arith);
    assert((x2 - x0) * c == x2 * c - x0 * c) by (nonlinear_arith);
    assert(x0 * (a + b + c) == x0 * a + x0 * b + x0 * c) by (nonlinear_arith);
    lemma_product_of_three(x0, m, denom);
}

/// A point of the triangle passes the edge tests. Where the point `p / denom`
/// is a weighted mean of the vertices of a face, `m * p = a * v0 + b * v1 + c *
/// v2` with weights that are not negative and add up to `m * denom` for a
/// positive `m`, it lies on the inner side of, or on, each edge as seen against
/// the normal of the edges.
pub proof fn lemma_point_of_triangle_is_inside(
    v0: IntVector,
    v1: IntVector,
    v2: IntVector,
    p: IntVector,
    denom: int,
    m: int,
    a: int,
    b: int,
    c: int,
)
    requires
        m > 0,
        a >= 0 && b >= 0 && c >= 0,
        a + b + c == m * denom,
        p.scaled(m) == v0.scaled(a).plus(v1.scaled(b)).plus(v2.scaled(c)),
    ensures
        ({
            let n = face_normal(NormalRule::Edges, v0, v1, v2);
            &&& edge_side(n, v0, v1, p, denom) >= 0
            &&& edge_side(n, v1, v2, p, denom) >= 0
            &&& edge_side(n, v2, v0, p, denom) >= 0
        }),
{
    let e1 = v1.minus(v0);
    let e2 = v2.minus(v0);
    let n = e1.cross(e2);
    let s = n.norm_squared();
    let w = p.minus(v0.scaled(denom));
    let side_a = edge_side(n, v1, v2, p, denom);
    let side_b = edge_side(n, v2, v0, p, denom);
    let side_c = edge_side(n, v0, v1, p, denom);
    lemma_edge_sides_in_basis(v0, v1, v2, p, denom);
    lemma_norm_squared_positive(n);
    lemma_unweigh_coordinate(v0.x, v1.x, v2.x, p.x, denom, m, a, b, c);
    lemma_unweigh_coordinate(v0.y, v1.y, v2.y, p.y, denom, m, a, b, c);
    lemma_unweigh_coordinate(v0.z, v1.z, v2.z, p.z, denom, m, a, b, c);
    let stretched = e1.scaled(b).plus(e2.scaled(c));
    assert(w.scaled(m) == stretched);
    // m * side_c = n . (e1 x (b e1 + c e2)) = c |n|^2
    lemma_cross_scaled(e1, w, m);
    lemma_dot_scaled(n, e1.cross(w), m);
    lemma_cross_distributes(e1, e1.scaled(b), e2.scaled(c));
    lemma_cross_scaled(e1, e1, b);
    lemma_cross_scaled(e1, e2, c);
    lemma_cross_self(e1);
    assert(e1.cross(e1).scaled(b) == IntVector::zero()) by (nonlinear_arith)
        requires
            e1.cross(e1).is_zero(),
    ;
    lemma_dot_scaled(n, n, c);
    assert(m * side_c == c * s);
    // m * side_b = n . ((b e1 + c e2) x e2) = b |n|^2
    lemma_cross_scaled(w, e2, m);
    lemma_dot_scaled(n, w.cross(e2), m);
    lemma_cross_distributes(e2, e1.scaled(b), e2.scaled(c));
    lemma_cross_scaled(e1, e2, b);
    lemma_cross_scaled(e2, e2, c);
    lemma_cross_self(e2);
    assert(e2.cross(e2).scaled(c) == IntVector::zero()) by (nonlinear_arith)
        requires
            e2.cross(e2).is_zero(),
    ;
    lemma_dot_scaled(n, n, b);
    assert(m * side_b == b * s);
    // m * side_a = m denom |n|^2 - b |n|^2 - c |n|^2 = a |n|^2
    assert(m * side_a == a * s) by (nonlinear_arith)
        requires
            side_a + side_b + side_c == denom * s,
            m * side_b == b * s,
            m * side_c == c * s,
            a + b + c == m * denom,
    {
        assert(m * (side_a + side_b + side_c) == m * side_a + m * side_b + m * side_c);
        assert(m * (denom * s) == (m * denom) * s);
        assert((a + b + c) * s == a * s + b * s + c * s);
    }
    assert(side_a >= 0 && side_b >= 0 && side_c >= 0) by (nonlinear_arith)
        requires
            m > 0,
            s >= 0,
            a >= 0 && b >= 0 && c >= 0,
            m * side_a == a * s,
            m * side_b == b * s,
            m * side_c == c * s,
    ;
}

/// One coordinate of the step from a point on the ray to the basis of the
/// edges.
proof fn lemma_ray_point_coordinate(
    x0: int,
    x1: int,
    x2: int,
    ox: int,
    dx: int,
    k: int,
    m: int,
    a: int,
    b: int,
    c: int,
)
    requires
        a + b + c == m,
        ox * m + dx * k == x0 * a + x1 * b + x2 * c,
    ensures
        dx * k - (x0 - ox) * m == (x1 - x0) * b + (x2 - x0) * c,
{
    assert((x0 - ox) * m == x0 * m - ox * m) by (nonlinear_arith);
    assert((x1 - x0) * b == x1 * b - x0 * b) by (nonlinear_arith);
    assert((x2 - x0) * c == x2 * c - x0 * c) by (nonlinear_arith);
    assert(x0 * (a + b + c) == x0 * a + x0 * b + x0 * c) by (nonlinear_arith);
}

/// A ray through the triangle hits it. Where the point at the ray parameter
/// `k / m`, with `k >= 0 < m`, is a weighted mean of the vertices of a face
/// with the normal of its edges, `m * origin + k * direction = a * v0 + b * v1 +
/// c * v2` with weights that are not negative and add up to `m`, and the ray
/// is not parallel to the face, the ray intersects the face at that parameter.
pub proof fn lemma_ray_through_triangle_hits(
    v0: IntVector,
    v1: IntVector,
    v2: IntVector,
    ray: RayModel,
    k: int,
    m: int,
    a: int,
    b: int,
    c: int,
)
    requires
        !face_normal(NormalRule::Edges, v0, v1, v2).is_zero(),
        !is_parallel(face_normal(NormalRule::Edges, v0, v1, v2), ray.direction),
        k >= 0,
        m > 0,
        a >= 0 && b >= 0 && c >= 0,
        a + b + c == m,
        ray.origin.scaled(m).plus(ray.direction.scaled(k)) == v0.scaled(a).plus(v1.scaled(b)).plus(
            v2.scaled(c),
        ),
    ensures
        ({
            let tri = face_triangle(NormalRule::Edges, v0, v1, v2);
            &&& intersection(tri, ray) == Some(plane_hit(tri, ray))
            &&& plane_hit(tri, ray).numer * m == k * plane_hit(tri, ray).denom
        }),
{
    let e1 = v1.minus(v0);
    let e2 = v2.minus(v0);
    let n = e1.cross(e2);
    let tri = face_triangle(NormalRule::Edges, v0, v1, v2);
    let hit = plane_hit(tri, ray);
    let along = n.dot(ray.direction);
    let offset = n.dot(v0.minus(ray.origin));
    lemma_not_parallel_crosses_plane(n, ray.direction);
    lemma_plane_hit_is_exact(tri, ray);
    // The normal is perpendicular to both edges.
    lemma_cross_swap(e1, e2);
    lemma_triple_product(e2, e1, e1);
    lemma_triple_product(e1, e2, e2);
    lemma_cross_self(e1);
    lemma_cross_self(e2);
    lemma_dot_scaled(e2.cross(e1), e1, -1);
    assert(e2.dot(IntVector::zero()) == 0 && e1.dot(IntVector::zero()) == 0) by (nonlinear_arith);
    assert(n.dot(e1) == 0) by {
        assert(e2.cross(e1).dot(e1) == e2.dot(e1.cross(e1)));
        assert(e2.cross(e1).scaled(-1).dot(e1) == -1 * e2.cross(e1).dot(e1));
    }
    assert(n.dot(e2) == 0);
    // The point on the ray lies in the plane: k (n . d) = m (n . (v0 - o)).
    let to_point = e1.scaled(b).plus(e2.scaled(c));
    lemma_dot_distributes(n, e1.scaled(b), e2.scaled(c));
    lemma_dot_scaled(n, e1, b);
    lemma_dot_scaled(n, e2, c);
    assert(n.dot(to_point) == 0) by (nonlinear_arith)
        requires
            n.dot(to_point) == b * n.dot(e1) + c * n.dot(e2),
            n.dot(e1) == 0,
            n.dot(e2) == 0,
    ;
    assert(ray.direction.scaled(k).minus(v0.minus(ray.origin).scaled(m)) == to_point) by {
        lemma_ray_point_coordinate(v0.x, v1.x, v2.x, ray.origin.x, ray.direction.x, k, m, a, b, c);
        lemma_ray_point_coordinate(v0.y, v1.y, v2.y, ray.origin.y, ray.direction.y, k, m, a, b, c);
        lemma_ray_point_coordinate(v0.z, v1.z, v2.z, ray.origin.z, ray.direction.z, k, m, a, b, c);
    }
    lemma_dot_distributes(n, ray.direction.scaled(k), v0.minus(ray.origin).scaled(m));
    lemma_dot_scaled(n, ray.direction, k);
    lemma_dot_scaled(n, v0.minus(ray.origin), m);
    assert(k * along == m * offset);
    // Hence the plane is crossed at the parameter k / m.
    assert(hit.numer * m == k * hit.denom) by (nonlinear_arith)
        requires
            along != 0,
            k * along == m * offset,
            hit.numer * along == hit.denom * offset,
    {
        assert((hit.numer * m) * along == m * (hit.numer * along));
        assert(m * (hit.denom * offset) == hit.denom * (m * offset));
        assert(hit.denom * (k * along) == (k * hit.denom) * along);
        assert((hit.numer * m - k * hit.denom) * along == 0);
    }
    assert(hit.numer >= 0) by (nonlinear_arith)
        requires
            hit.numer * m == k * hit.denom,
            m > 0,
            k >= 0,
            hit.denom > 0,
    ;
    // The plane point is the same weighted mean, with every weight stretched.
    let d = hit.denom;
    assert(a * d >= 0 && b * d >= 0 && c * d >= 0 && a * d + b * d + c * d == m * d)
        by (nonlinear_arith)
        requires
            a >= 0 && b >= 0 && c >= 0,
            d > 0,
            a + b + c == m,
    ;
    assert(hit.point.scaled(m) == v0.scaled(a * d).plus(v1.scaled(b * d)).plus(v2.scaled(c * d)))
        by {
        lemma_scaled_distributes(ray.origin.scaled(d), ray.direction.scaled(hit.numer), m, 1);
        lemma_scaled_distributes(ray.origin, ray.origin, m, d);
        lemma_scaled_distributes(ray.direction, ray.direction, hit.numer, m);
        lemma_scaled_distributes(ray.direction, ray.direction, k, d);
        lemma_scaled_distributes(ray.origin.scaled(m), ray.direction.scaled(k), d, 1);
        lemma_scaled_distributes(v0.scaled(a).plus(v1.scaled(b)), v2.scaled(c), d, 1);
        lemma_scaled_distributes(v0.scaled(a), v1.scaled(b), d, 1);
        lemma_scaled_distributes(v0, v0, a, d);
        lemma_scaled_distributes(v1, v1, b, d);
        lemma_scaled_distributes(v2, v2, c, d);
    }
    lemma_point_of_triangle_is_inside(v0, v1, v2, hit.point, d, m, a * d, b * d, c * d);
}

} // verus!
