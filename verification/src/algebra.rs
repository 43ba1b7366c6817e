//! Identities of integer vector algebra.
//!
//! The solver is given products one monomial at a time: each identity is first
//! expanded by the distributive law, then every product of three factors is
//! brought into one order, and what remains is linear.
use crate::vector::IntVector;
use vstd::prelude::*;

verus! {

/// A product of three factors does not depend on their order or grouping.
pub proof fn lemma_product_of_three(a: int, b: int, c: int)
    ensures
        a * (b * c) == a * b * c,
        a * (c * b) == a * b * c,
        (a * c) * b == a * b * c,
        b * (a * c) == a * b * c,
        b * (c * a) == a * b * c,
        (b * a) * c == a * b * c,
        (b * c) * a == a * b * c,
        c * (a * b) == a * b * c,
        c * (b * a) == a * b * c,
        (c * a) * b == a * b * c,
        (c * b) * a == a * b * c,
{
    assert(a * (b * c) == a * b * c) by (nonlinear_arith);
    assert(a * (c * b) == a * b * c) by (nonlinear_arith);
    assert((a * c) * b == a * b * c) by (nonlinear_arith);
    assert(b * (a * c) == a * b * c) by (nonlinear_arith);
    assert(b * (c * a) == a * b * c) by (nonlinear_arith);
    assert((b * a) * c == a * b * c) by (nonlinear_arith);
    assert((b * c) * a == a * b * c) by (nonlinear_arith);
    assert(c * (a * b) == a * b * c) by (nonlinear_arith);
    assert(c * (b * a) == a * b * c) by (nonlinear_arith);
    assert((c * a) * b == a * b * c) by (nonlinear_arith);
    assert((c * b) * a == a * b * c) by (nonlinear_arith);
}

/// Scaling distributes over sums and differences, and scalings compose.
pub proof fn lemma_scaled_distributes(a: IntVector, b: IntVector, k: int, m: int)
    ensures
        a.plus(b).scaled(k) == a.scaled(k).plus(b.scaled(k)),
        a.minus(b).scaled(k) == a.scaled(k).minus(b.scaled(k)),
        a.scaled(k).scaled(m) == a.scaled(k * m),
        a.scaled(k).scaled(m) == a.scaled(m).scaled(k),
{
    assert((a.x + b.x) * k == a.x * k + b.x * k) by (nonlinear_arith);
    assert((a.y + b.y) * k == a.y * k + b.y * k) by (nonlinear_arith);
    assert((a.z + b.z) * k == a.z * k + b.z * k) by (nonlinear_arith);
    assert((a.x - b.x) * k == a.x * k - b.x * k) by (nonlinear_arith);
    assert((a.y - b.y) * k == a.y * k - b.y * k) by (nonlinear_arith);
    assert((a.z - b.z) * k == a.z * k - b.z * k) by (nonlinear_arith);
    assert((a.x * k) * m == a.x * (k * m) && (a.x * k) * m == (a.x * m) * k) by (nonlinear_arith);
    assert((a.y * k) * m == a.y * (k * m) && (a.y * k) * m == (a.y * m) * k) by (nonlinear_arith);
    assert((a.z * k) * m == a.z * (k * m) && (a.z * k) * m == (a.z * m) * k) by (nonlinear_arith);
}

/// The dot product does not depend on the order of its operands.
pub proof fn lemma_dot_commutes(a: IntVector, b: IntVector)
    ensures
        a.dot(b) == b.dot(a),
{
    assert(a.x * b.x == b.x * a.x && a.y * b.y == b.y * a.y && a.z * b.z == b.z * a.z)
        by (nonlinear_arith);
}

/// A vector that is not zero has a positive squared length.
pub proof fn lemma_norm_squared_positive(v: IntVector)
    ensures
        v.norm_squared() >= 0,
        v.norm_squared() == 0 <==> v.is_zero(),
{
    assert(v.x * v.x >= 0 && (v.x * v.x == 0 <==> v.x == 0)) by (nonlinear_arith);
    assert(v.y * v.y >= 0 && (v.y * v.y == 0 <==> v.y == 0)) by (nonlinear_arith);
    assert(v.z * v.z >= 0 && (v.z * v.z == 0 <==> v.z == 0)) by (nonlinear_arith);
}

/// The dot product is linear in each operand.
pub proof fn lemma_dot_scaled(a: IntVector, b: IntVector, k: int)
    ensures
        a.scaled(k).dot(b) == k * a.dot(b),
        a.dot(b.scaled(k)) == k * a.dot(b),
{
    assert((a.x * k) * b.x == k * (a.x * b.x) && a.x * (b.x * k) == k * (a.x * b.x))
        by (nonlinear_arith);
    assert((a.y * k) * b.y == k * (a.y * b.y) && a.y * (b.y * k) == k * (a.y * b.y))
        by (nonlinear_arith);
    assert((a.z * k) * b.z == k * (a.z * b.z) && a.z * (b.z * k) == k * (a.z * b.z))
        by (nonlinear_arith);
    let (p, q, r) = (a.x * b.x, a.y * b.y, a.z * b.z);
    assert(k * (p + q + r) == k * p + k * q + k * r) by (nonlinear_arith);
}

/// The dot product distributes over a sum and over a difference.
pub proof fn lemma_dot_distributes(a: IntVector, b: IntVector, c: IntVector)
    ensures
        a.dot(b.plus(c)) == a.dot(b) + a.dot(c),
        a.dot(b.minus(c)) == a.dot(b) - a.dot(c),
{
    assert(a.x * (b.x + c.x) == a.x * b.x + a.x * c.x) by (nonlinear_arith);
    assert(a.y * (b.y + c.y) == a.y * b.y + a.y * c.y) by (nonlinear_arith);
    assert(a.z * (b.z + c.z) == a.z * b.z + a.z * c.z) by (nonlinear_arith);
    assert(a.x * (b.x - c.x) == a.x * b.x - a.x * c.x) by (nonlinear_arith);
    assert(a.y * (b.y - c.y) == a.y * b.y - a.y * c.y) by (nonlinear_arith);
    assert(a.z * (b.z - c.z) == a.z * b.z - a.z * c.z) by (nonlinear_arith);
}

/// The cross product of a vector with itself is zero.
pub proof fn lemma_cross_self(a: IntVector)
    ensures
        a.cross(a).is_zero(),
{
    assert(a.y * a.z - a.z * a.y == 0) by (nonlinear_arith);
    assert(a.z * a.x - a.x * a.z == 0) by (nonlinear_arith);
    assert(a.x * a.y - a.y * a.x == 0) by (nonlinear_arith);
}

/// Swapping the operands of a cross product reverses it.
pub proof fn lemma_cross_swap(a: IntVector, b: IntVector)
    ensures
        a.cross(b) == b.cross(a).scaled(-1),
{
    assert(a.y * b.z == b.z * a.y && a.z * b.y == b.y * a.z) by (nonlinear_arith);
    assert(a.z * b.x == b.x * a.z && a.x * b.z == b.z * a.x) by (nonlinear_arith);
    assert(a.x * b.y == b.y * a.x && a.y * b.x == b.x * a.y) by (nonlinear_arith);
}

/// The cross product is linear in each operand.
pub proof fn lemma_cross_scaled(a: IntVector, b: IntVector, k: int)
    ensures
        a.scaled(k).cross(b) == a.cross(b).scaled(k),
        a.cross(b.scaled(k)) == a.cross(b).scaled(k),
{
    assert((a.y * k) * b.z - (a.z * k) * b.y == (a.y * b.z - a.z * b.y) * k) by (nonlinear_arith);
    assert((a.z * k) * b.x - (a.x * k) * b.z == (a.z * b.x - a.x * b.z) * k) by (nonlinear_arith);
    assert((a.x * k) * b.y - (a.y * k) * b.x == (a.x * b.y - a.y * b.x) * k) by (nonlinear_arith);
    assert(a.y * (b.z * k) - a.z * (b.y * k) == (a.y * b.z - a.z * b.y) * k) by (nonlinear_arith);
    assert(a.z * (b.x * k) - a.x * (b.z * k) == (a.z * b.x - a.x * b.z) * k) by (nonlinear_arith);
    assert(a.x * (b.y * k) - a.y * (b.x * k) == (a.x * b.y - a.y * b.x) * k) by (nonlinear_arith);
}

/// The cross product distributes over a sum and over a difference, in either
/// operand.
pub proof fn lemma_cross_distributes(a: IntVector, b: IntVector, c: IntVector)
    ensures
        a.cross(b.plus(c)) == a.cross(b).plus(a.cross(c)),
        a.cross(b.minus(c)) == a.cross(b).minus(a.cross(c)),
        b.plus(c).cross(a) == b.cross(a).plus(c.cross(a)),
        b.minus(c).cross(a) == b.cross(a).minus(c.cross(a)),
{
    assert((b.y + c.y) * a.z == b.y * a.z + c.y * a.z && (b.z + c.z) * a.y == b.z * a.y + c.z
        * a.y) by (nonlinear_arith);
    assert((b.z + c.z) * a.x == b.z * a.x + c.z * a.x && (b.x + c.x) * a.z == b.x * a.z + c.x
        * a.z) by (nonlinear_arith);
    assert((b.x + c.x) * a.y == b.x * a.y + c.x * a.y && (b.y + c.y) * a.x == b.y * a.x + c.y
        * a.x) by (nonlinear_arith);
    assert((b.y - c.y) * a.z == b.y * a.z - c.y * a.z && (b.z - c.z) * a.y == b.z * a.y - c.z
        * a.y) by (nonlinear_arith);
    assert((b.z - c.z) * a.x == b.z * a.x - c.z * a.x && (b.x - c.x) * a.z == b.x * a.z - c.x
        * a.z) by (nonlinear_arith);
    assert((b.x - c.x) * a.y == b.x * a.y - c.x * a.y && (b.y - c.y) * a.x == b.y * a.x - c.y
        * a.x) by (nonlinear_arith);
    assert(a.y * (b.z + c.z) == a.y * b.z + a.y * c.z && a.z * (b.y + c.y) == a.z * b.y + a.z
        * c.y) by (nonlinear_arith);
    assert(a.z * (b.x + c.x) == a.z * b.x + a.z * c.x && a.x * (b.z + c.z) == a.x * b.z + a.x
        * c.z) by (nonlinear_arith);
    assert(a.x * (b.y + c.y) == a.x * b.y + a.x * c.y && a.y * (b.x + c.x) == a.y * b.x + a.y
        * c.x) by (nonlinear_arith);
    assert(a.y * (b.z - c.z) == a.y * b.z - a.y * c.z && a.z * (b.y - c.y) == a.z * b.y - a.z
        * c.y) by (nonlinear_arith);
    assert(a.z * (b.x - c.x) == a.z * b.x - a.z * c.x && a.x * (b.z - c.z) == a.x * b.z - a.x
        * c.z) by (nonlinear_arith);
    assert(a.x * (b.y - c.y) == a.x * b.y - a.x * c.y && a.y * (b.x - c.x) == a.y * b.x - a.y
        * c.x) by (nonlinear_arith);
}

/// The scalar triple product does not change when the cross moves to the other
/// pair of factors: `(a x b) . c = a . (b x c)`.
pub proof fn lemma_triple_product(a: IntVector, b: IntVector, c: IntVector)
    ensures
        a.cross(b).dot(c) == a.dot(b.cross(c)),
{
    assert((a.y * b.z - a.z * b.y) * c.x == (a.y * b.z) * c.x - (a.z * b.y) * c.x)
        by (nonlinear_arith);
    assert((a.z * b.x - a.x * b.z) * c.y == (a.z * b.x) * c.y - (a.x * b.z) * c.y)
        by (nonlinear_arith);
    assert((a.x * b.y - a.y * b.x) * c.z == (a.x * b.y) * c.z - (a.y * b.x) * c.z)
        by (nonlinear_arith);
    assert(a.x * (b.y * c.z - b.z * c.y) == a.x * (b.y * c.z) - a.x * (b.z * c.y))
        by (nonlinear_arith);
    assert(a.y * (b.z * c.x - b.x * c.z) == a.y * (b.z * c.x) - a.y * (b.x * c.z))
        by (nonlinear_arith);
    assert(a.z * (b.x * c.y - b.y * c.x) == a.z * (b.x * c.y) - a.z * (b.y * c.x))
        by (nonlinear_arith);
    lemma_product_of_three(a.x, b.y, c.z);
    lemma_product_of_three(a.x, b.z, c.y);
    lemma_product_of_three(a.y, b.z, c.x);
    lemma_product_of_three(a.y, b.x, c.z);
    lemma_product_of_three(a.z, b.x, c.y);
    lemma_product_of_three(a.z, b.y, c.x);
}

/// The first component of the double cross product; the other two follow by
/// turning the three axes.
proof fn lemma_double_cross_component(
    ax: int,
    ay: int,
    az: int,
    bx: int,
    by: int,
    bz: int,
    cx: int,
    cy: int,
    cz: int,
)
    ensures
        ay * (bx * cy - by * cx) - az * (bz * cx - bx * cz) == bx * (ax * cx + ay * cy + az * cz)
            - cx * (ax * bx + ay * by + az * bz),
        ay * (bx * cy - by * cx) - az * (bz * cx - bx * cz) == bx * (ay * cy + az * cz + ax * cx)
            - cx * (ay * by + az * bz + ax * bx),
        ay * (bx * cy - by * cx) - az * (bz * cx - bx * cz) == bx * (az * cz + ax * cx + ay * cy)
            - cx * (az * bz + ax * bx + ay * by),
{
    assert(ay * (bx * cy - by * cx) == ay * (bx * cy) - ay * (by * cx)) by (nonlinear_arith);
    assert(az * (bz * cx - bx * cz) == az * (bz * cx) - az * (bx * cz)) by (nonlinear_arith);
    assert(bx * (ax * cx + ay * cy + az * cz) == bx * (ax * cx) + bx * (ay * cy) + bx * (az * cz))
        by (nonlinear_arith);
    assert(cx * (ax * bx + ay * by + az * bz) == cx * (ax * bx) + cx * (ay * by) + cx * (az * bz))
        by (nonlinear_arith);
    lemma_product_of_three(ax, bx, cx);
    lemma_product_of_three(ay, bx, cy);
    lemma_product_of_three(az, bx, cz);
    lemma_product_of_three(ay, by, cx);
    lemma_product_of_three(az, bz, cx);
}

/// The double cross product expands as `a x (b x c) = b (a . c) - c (a . b)`.
pub proof fn lemma_double_cross(a: IntVector, b: IntVector, c: IntVector)
    ensures
        a.cross(b.cross(c)) == b.scaled(a.dot(c)).minus(c.scaled(a.dot(b))),
{
    lemma_double_cross_component(a.x, a.y, a.z, b.x, b.y, b.z, c.x, c.y, c.z);
    lemma_double_cross_component(a.y, a.z, a.x, b.y, b.z, b.x, c.y, c.z, c.x);
    lemma_double_cross_component(a.z, a.x, a.y, b.z, b.x, b.y, c.z, c.x, c.y);
}

/// The dot product of two cross products:
/// `(a x b) . (c x d) = (a . c) (b . d) - (a . d) (b . c)`.
pub proof fn lemma_cross_dot_cross(a: IntVector, b: IntVector, c: IntVector, d: IntVector)
    ensures
        a.cross(b).dot(c.cross(d)) == b.dot(d) * a.dot(c) - b.dot(c) * a.dot(d),
{
    lemma_triple_product(a, b, c.cross(d));
    lemma_double_cross(b, c, d);
    lemma_dot_distributes(a, c.scaled(b.dot(d)), d.scaled(b.dot(c)));
    lemma_dot_scaled(a, c, b.dot(d));
    lemma_dot_scaled(a, d, b.dot(c));
}

/// The first component of the expansion of a vector in the basis of two edges
/// and their normal.
proof fn lemma_regroup(a: int, d: int, aa: int, bb: int, cc: int, k1: int, k2: int)
    ensures
        (d * aa - a * bb) * k1 - (d * bb - a * cc) * k2 == a * (cc * k2 - bb * k1) + d * (aa * k1
            - bb * k2),
{
    assert((d * aa - a * bb) * k1 == (d * aa) * k1 - (a * bb) * k1) by (nonlinear_arith);
    assert((d * bb - a * cc) * k2 == (d * bb) * k2 - (a * cc) * k2) by (nonlinear_arith);
    assert(a * (cc * k2 - bb * k1) == a * (cc * k2) - a * (bb * k1)) by (nonlinear_arith);
    assert(d * (aa * k1 - bb * k2) == d * (aa * k1) - d * (bb * k2)) by (nonlinear_arith);
    lemma_product_of_three(d, aa, k1);
    lemma_product_of_three(a, bb, k1);
    lemma_product_of_three(d, bb, k2);
    lemma_product_of_three(a, cc, k2);
}

/// Any vector `w` expands in the basis of two vectors `e1`, `e2` and their
/// cross product `n`, with the coefficients read off by triple products:
/// `|n|^2 w = (n . (w x e2)) e1 + (n . (e1 x w)) e2 + (n . w) n`.
pub proof fn lemma_expand_in_basis(e1: IntVector, e2: IntVector, w: IntVector)
    ensures
        w.scaled(e1.cross(e2).norm_squared()) == e1.scaled(e1.cross(e2).dot(w.cross(e2))).plus(
            e2.scaled(e1.cross(e2).dot(e1.cross(w))),
        ).plus(e1.cross(e2).scaled(e1.cross(e2).dot(w))),
{
    let n = e1.cross(e2);
    let aa = e1.dot(e1);
    let bb = e1.dot(e2);
    let cc = e2.dot(e2);
    let k1 = e2.dot(w);
    let k2 = e1.dot(w);
    let p = n.dot(w.cross(e2));
    let q = n.dot(e1.cross(w));
    lemma_dot_commutes(e1, e2);
    lemma_dot_commutes(w, e1);
    lemma_dot_commutes(w, e2);
    // n x (w x n) = w |n|^2 - n (n . w)
    lemma_double_cross(n, w, n);
    // w x n = e1 (w . e2) - e2 (w . e1)
    lemma_double_cross(w, e1, e2);
    lemma_cross_distributes(n, e1.scaled(k1), e2.scaled(k2));
    lemma_cross_scaled(n, e1, k1);
    lemma_cross_scaled(n, e2, k2);
    // n x e1 = e2 (e1 . e1) - e1 (e1 . e2)
    lemma_cross_swap(n, e1);
    lemma_double_cross(e1, e1, e2);
    // n x e2 = e2 (e1 . e2) - e1 (e2 . e2)
    lemma_cross_swap(n, e2);
    lemma_double_cross(e2, e1, e2);
    // the coefficients
    lemma_cross_dot_cross(e1, e2, w, e2);
    lemma_cross_dot_cross(e1, e2, e1, w);
    assert(p == cc * k2 - bb * k1);
    assert(q == aa * k1 - bb * k2) by {
        assert(k1 * aa == aa * k1 && k2 * bb == bb * k2) by (nonlinear_arith);
    }
    lemma_regroup(e1.x, e2.x, aa, bb, cc, k1, k2);
    lemma_regroup(e1.y, e2.y, aa, bb, cc, k1, k2);
    lemma_regroup(e1.z, e2.z, aa, bb, cc, k1, k2);
    let turned = n.cross(w.cross(n));
    assert(turned == n.cross(e1).scaled(k1).minus(n.cross(e2).scaled(k2)));
    assert(n.cross(e1) == e2.scaled(aa).minus(e1.scaled(bb)));
    assert(n.cross(e2) == e2.scaled(bb).minus(e1.scaled(cc)));
    assert(turned.x == e1.x * p + e2.x * q);
    assert(turned.y == e1.y * p + e2.y * q);
    assert(turned.z == e1.z * p + e2.z * q);
}

} // verus!
