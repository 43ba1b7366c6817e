//! The camera: a position, an orientation, and the ray it casts for a pixel.
use crate::grid::{COORD_MAX, ROTATION_MAX, UNIT};
use crate::ray::{Ray, RayModel};
use crate::vector::{lemma_product_bound, IntVector, Vector3};
use vstd::arithmetic::div_mod::{
    lemma_div_is_ordered, lemma_div_multiples_vanish, lemma_fundamental_div_mod,
    lemma_fundamental_div_mod_converse,
};
use vstd::prelude::*;

verus! {

/// The canonical forward axis `+Z`, `length` grid steps long.
pub open spec fn forward_axis(length: int) -> IntVector {
    IntVector { x: 0, y: 0, z: length }
}

/// The model of a [`Rotation`]: a quaternion with integer components, which
/// stands for the rotation of the unit quaternion along it.
pub struct RotationModel {
    pub x: int,
    pub y: int,
    pub z: int,
    pub w: int,
}

impl RotationModel {
    /// The squared length of the quaternion.
    pub open spec fn norm_squared(self) -> int {
        self.x * self.x + self.y * self.y + self.z * self.z + self.w * self.w
    }

    /// The quaternion is not zero and its components have magnitude at most
    /// [`ROTATION_MAX`].
    pub open spec fn is_valid(self) -> bool {
        &&& -ROTATION_MAX <= self.x <= ROTATION_MAX
        &&& -ROTATION_MAX <= self.y <= ROTATION_MAX
        &&& -ROTATION_MAX <= self.z <= ROTATION_MAX
        &&& -ROTATION_MAX <= self.w <= ROTATION_MAX
        &&& !(self.x == 0 && self.y == 0 && self.z == 0 && self.w == 0)
    }

    /// The quaternion product `q v q*` for a vector `v`: the rotated vector
    /// times the squared length of `q`.
    pub open spec fn conjugate(self, v: IntVector) -> IntVector {
        let axis = IntVector { x: self.x, y: self.y, z: self.z };
        v.scaled(self.w * self.w - axis.norm_squared()).plus(axis.scaled(2 * v.dot(axis))).plus(
            axis.cross(v).scaled(2 * self.w),
        )
    }

    /// The canonical forward axis `+Z`, one world unit long, rotated into world
    /// space: `q (0, 0, UNIT) q* / |q|^2`, each component rounded down to the
    /// grid.
    pub open spec fn forward(self) -> IntVector {
        let turned = self.conjugate(forward_axis(UNIT as int));
        let s = self.norm_squared();
        IntVector { x: turned.x / s, y: turned.y / s, z: turned.z / s }
    }
}

/// The model of a [`CameraPose`].
pub struct CameraModel {
    pub position: IntVector,
    pub rotation: RotationModel,
}

impl CameraModel {
    /// The ray cast for the pixel in column `x` and row `y`. The camera casts
    /// along its forward axis from its position, whatever the pixel.
    pub open spec fn ray(self, x: int, y: int) -> RayModel {
        RayModel { origin: self.position, direction: self.rotation.forward() }
    }
}

/// A non-zero quaternion has a positive squared length.
pub proof fn lemma_rotation_norm_positive(q: RotationModel)
    requires
        !(q.x == 0 && q.y == 0 && q.z == 0 && q.w == 0),
    ensures
        q.norm_squared() > 0,
{
    assert(q.x * q.x >= 0 && (q.x * q.x == 0 <==> q.x == 0)) by (nonlinear_arith);
    assert(q.y * q.y >= 0 && (q.y * q.y == 0 <==> q.y == 0)) by (nonlinear_arith);
    assert(q.z * q.z >= 0 && (q.z * q.z == 0 <==> q.z == 0)) by (nonlinear_arith);
    assert(q.w * q.w >= 0 && (q.w * q.w == 0 <==> q.w == 0)) by (nonlinear_arith);
}

/// Conjugating the forward axis stretches it by the squared length of the
/// quaternion and no more: each component of `q (0, 0, u) q*` has magnitude at
/// most `u * |q|^2`.
pub proof fn lemma_turned_forward(q: RotationModel, u: int)
    requires
        u >= 0,
    ensures
        q.conjugate(forward_axis(u)) == (IntVector {
            x: u * (2 * (q.x * q.z + q.w * q.y)),
            y: u * (2 * (q.y * q.z - q.w * q.x)),
            z: u * (q.w * q.w - q.x * q.x - q.y * q.y + q.z * q.z),
        }),
        q.conjugate(forward_axis(u)).within(u * q.norm_squared()),
{
    let s = q.norm_squared();
    let rx = 2 * (q.x * q.z + q.w * q.y);
    let ry = 2 * (q.y * q.z - q.w * q.x);
    let rz = q.w * q.w - q.x * q.x - q.y * q.y + q.z * q.z;
    let turned = q.conjugate(forward_axis(u));
    let (x, y, z, w) = (q.x, q.y, q.z, q.w);
    // The three terms of the product, as the definition unfolds them for the
    // vector (0, 0, u).
    let keep = w * w - (x * x + y * y + z * z);
    let lean = 2 * (0 * x + 0 * y + u * z);
    assert(turned.x == 0 * keep + x * lean + (y * u - z * 0) * (2 * w));
    assert(turned.y == 0 * keep + y * lean + (z * 0 - x * u) * (2 * w));
    assert(turned.z == u * keep + z * lean + (x * 0 - y * 0) * (2 * w));
    assert(0 * keep + x * (2 * (0 * x + 0 * y + u * z)) + (y * u - z * 0) * (2 * w) == u * (2 * (x
        * z + w * y))) by (nonlinear_arith);
    assert(0 * keep + y * (2 * (0 * x + 0 * y + u * z)) + (z * 0 - x * u) * (2 * w) == u * (2 * (y
        * z - w * x))) by (nonlinear_arith);
    assert(u * (w * w - (x * x + y * y + z * z)) + z * (2 * (0 * x + 0 * y + u * z)) + (x * 0 - y
        * 0) * (2 * w) == u * (w * w - x * x - y * y + z * z)) by (nonlinear_arith);
    assert(-s <= rx <= s) by (nonlinear_arith)
        requires
            s == q.x * q.x + q.y * q.y + q.z * q.z + q.w * q.w,
            rx == 2 * (q.x * q.z + q.w * q.y),
    {
        assert((q.x - q.z) * (q.x - q.z) + (q.w - q.y) * (q.w - q.y) >= 0);
        assert((q.x + q.z) * (q.x + q.z) + (q.w + q.y) * (q.w + q.y) >= 0);
    }
    assert(-s <= ry <= s) by (nonlinear_arith)
        requires
            s == q.x * q.x + q.y * q.y + q.z * q.z + q.w * q.w,
            ry == 2 * (q.y * q.z - q.w * q.x),
    {
        assert((q.y - q.z) * (q.y - q.z) + (q.w + q.x) * (q.w + q.x) >= 0);
        assert((q.y + q.z) * (q.y + q.z) + (q.w - q.x) * (q.w - q.x) >= 0);
    }
    assert(-s <= rz <= s) by (nonlinear_arith)
        requires
            s == q.x * q.x + q.y * q.y + q.z * q.z + q.w * q.w,
            rz == q.w * q.w - q.x * q.x - q.y * q.y + q.z * q.z,
    ;
    assert(s >= 0) by (nonlinear_arith)
        requires
            s == q.x * q.x + q.y * q.y + q.z * q.z + q.w * q.w,
    ;
    lemma_product_bound(u, rx, u, s);
    lemma_product_bound(u, ry, u, s);
    lemma_product_bound(u, rz, u, s);
}

/// A quotient rounded down lies within the bound of which the dividend lies
/// within a multiple.
pub proof fn lemma_quotient_bound(a: int, s: int, u: int)
    requires
        s > 0,
        -(u * s) <= a <= u * s,
    ensures
        -u <= a / s <= u,
{
    lemma_div_is_ordered(a, u * s, s);
    lemma_div_is_ordered(-(u * s), a, s);
    lemma_div_multiples_vanish(u, s);
    lemma_div_multiples_vanish(-u, s);
    assert(u * s == s * u) by (nonlinear_arith);
    assert(-(u * s) == s * (-u)) by (nonlinear_arith);
}

/// The forward axis of a non-zero rotation is at most one world unit long in
/// each coordinate.
pub proof fn lemma_forward_bound(q: RotationModel)
    requires
        !(q.x == 0 && q.y == 0 && q.z == 0 && q.w == 0),
    ensures
        q.forward().within(UNIT as int),
{
    lemma_rotation_norm_positive(q);
    lemma_turned_forward(q, UNIT as int);
    let turned = q.conjugate(forward_axis(UNIT as int));
    lemma_quotient_bound(turned.x, q.norm_squared(), UNIT as int);
    lemma_quotient_bound(turned.y, q.norm_squared(), UNIT as int);
    lemma_quotient_bound(turned.z, q.norm_squared(), UNIT as int);
}

/// A quotient rounded down does not change when dividend and divisor are
/// stretched by the same positive factor.
pub proof fn lemma_quotient_of_multiples(a: int, s: int, k: int)
    requires
        s > 0,
        k > 0,
    ensures
        k * s > 0,
        (k * a) / (k * s) == a / s,
{
    let q = a / s;
    let r = a % s;
    lemma_fundamental_div_mod(a, s);
    assert(k * s > 0) by (nonlinear_arith)
        requires
            s > 0,
            k > 0,
    ;
    assert(0 <= k * r < k * s) by (nonlinear_arith)
        requires
            0 <= r < s,
            k > 0,
    ;
    assert(k * a == q * (k * s) + k * r) by (nonlinear_arith)
        requires
            a == s * q + r,
    {
        assert(k * (s * q + r) == k * (s * q) + k * r);
        assert(k * (s * q) == q * (k * s));
    }
    lemma_fundamental_div_mod_converse(k * a, k * s, q, k * r);
}

/// The quaternion `q` with every component multiplied by `k`.
pub open spec fn stretched(q: RotationModel, k: int) -> RotationModel {
    RotationModel { x: k * q.x, y: k * q.y, z: k * q.z, w: k * q.w }
}

/// The product `(k a) (k b)` is `k^2` times `a b`.
proof fn lemma_stretched_product(k: int, a: int, b: int)
    ensures
        (k * a) * (k * b) == (k * k) * (a * b),
{
    assert((k * a) * (k * b) == (k * k) * (a * b)) by (nonlinear_arith);
}

/// Quaternions that are non-zero multiples of one another stand for the same
/// rotation: they turn the forward axis to the same grid vector.
pub proof fn lemma_forward_ignores_length(q: RotationModel, k: int)
    requires
        !(q.x == 0 && q.y == 0 && q.z == 0 && q.w == 0),
        k != 0,
    ensures
        stretched(q, k).forward() == q.forward(),
{
    let u = UNIT as int;
    let qk = stretched(q, k);
    let s = q.norm_squared();
    let kk = k * k;
    lemma_rotation_norm_positive(q);
    lemma_turned_forward(q, u);
    lemma_turned_forward(qk, u);
    lemma_stretched_product(k, q.x, q.x);
    lemma_stretched_product(k, q.y, q.y);
    lemma_stretched_product(k, q.z, q.z);
    lemma_stretched_product(k, q.w, q.w);
    lemma_stretched_product(k, q.x, q.z);
    lemma_stretched_product(k, q.w, q.y);
    lemma_stretched_product(k, q.y, q.z);
    lemma_stretched_product(k, q.w, q.x);
    assert(kk > 0) by (nonlinear_arith)
        requires
            k != 0,
            kk == k * k,
    ;
    let (xx, yy, zz, ww) = (q.x * q.x, q.y * q.y, q.z * q.z, q.w * q.w);
    let (xz, wy, yz, wx) = (q.x * q.z, q.w * q.y, q.y * q.z, q.w * q.x);
    assert(qk.norm_squared() == kk * s) by (nonlinear_arith)
        requires
            qk.norm_squared() == kk * xx + kk * yy + kk * zz + kk * ww,
            s == xx + yy + zz + ww,
    ;
    let turned = q.conjugate(forward_axis(u));
    let turned_k = qk.conjugate(forward_axis(u));
    assert(turned_k.x == kk * turned.x) by (nonlinear_arith)
        requires
            turned_k.x == u * (2 * (kk * xz + kk * wy)),
            turned.x == u * (2 * (xz + wy)),
    {
        assert(u * (2 * (kk * xz + kk * wy)) == u * (kk * (2 * (xz + wy))));
        assert(u * (kk * (2 * (xz + wy))) == kk * (u * (2 * (xz + wy))));
    }
    assert(turned_k.y == kk * turned.y) by (nonlinear_arith)
        requires
            turned_k.y == u * (2 * (kk * yz - kk * wx)),
            turned.y == u * (2 * (yz - wx)),
    {
        assert(u * (2 * (kk * yz - kk * wx)) == u * (kk * (2 * (yz - wx))));
        assert(u * (kk * (2 * (yz - wx))) == kk * (u * (2 * (yz - wx))));
    }
    assert(turned_k.z == kk * turned.z) by (nonlinear_arith)
        requires
            turned_k.z == u * (kk * ww - kk * xx - kk * yy + kk * zz),
            turned.z == u * (ww - xx - yy + zz),
    {
        assert(u * (kk * ww - kk * xx - kk * yy + kk * zz) == u * (kk * (ww - xx - yy + zz)));
        assert(u * (kk * (ww - xx - yy + zz)) == kk * (u * (ww - xx - yy + zz)));
    }
    lemma_quotient_of_multiples(turned.x, s, kk);
    lemma_quotient_of_multiples(turned.y, s, kk);
    lemma_quotient_of_multiples(turned.z, s, kk);
}

/// The square of a sum and of a difference.
proof fn lemma_square_of_sum(a: int, b: int)
    ensures
        (a + b) * (a + b) == a * a + 2 * (a * b) + b * b,
        (a - b) * (a - b) == a * a - 2 * (a * b) + b * b,
        (2 * a) * (2 * a) == 4 * (a * a),
{
    assert((a + b) * (a + b) == a * a + 2 * (a * b) + b * b) by (nonlinear_arith);
    assert((a - b) * (a - b) == a * a - 2 * (a * b) + b * b) by (nonlinear_arith);
    assert((2 * a) * (2 * a) == 4 * (a * a)) by (nonlinear_arith);
}

/// The orientation is a rotation: before it is rounded to the grid, the turned
/// forward axis is as long as the axis itself. The product `q (0, 0, u) q*`
/// has the squared length `(u |q|^2)^2`.
pub proof fn lemma_turned_forward_keeps_length(q: RotationModel, u: int)
    requires
        u >= 0,
    ensures
        q.conjugate(forward_axis(u)).norm_squared() == (u * q.norm_squared()) * (u
            * q.norm_squared()),
{
    let (x, y, z, w) = (q.x, q.y, q.z, q.w);
    let s = q.norm_squared();
    let (xx, yy, zz, ww) = (x * x, y * y, z * z, w * w);
    let (xz, wy, yz, wx) = (x * z, w * y, y * z, w * x);
    let rx = 2 * (xz + wy);
    let ry = 2 * (yz - wx);
    let rz = ww - xx - yy + zz;
    let turned = q.conjugate(forward_axis(u));
    lemma_turned_forward(q, u);
    assert(turned.x == u * rx && turned.y == u * ry && turned.z == u * rz);
    // rx^2 + ry^2 = 4 (x^2 + y^2) (z^2 + w^2)
    lemma_square_of_sum(xz, wy);
    lemma_square_of_sum(yz, wx);
    lemma_square_of_sum(xz + wy, 0);
    lemma_square_of_sum(yz - wx, 0);
    assert(xz * wy == yz * wx) by (nonlinear_arith)
        requires
            xz == x * z,
            wy == w * y,
            yz == y * z,
            wx == w * x,
    ;
    assert(xz * xz == xx * zz && wy * wy == yy * ww && yz * yz == yy * zz && wx * wx == xx * ww)
        by (nonlinear_arith)
        requires
            xz == x * z,
            wy == w * y,
            yz == y * z,
            wx == w * x,
            xx == x * x,
            yy == y * y,
            zz == z * z,
            ww == w * w,
    ;
    let p = xx + yy;
    let r = zz + ww;
    assert(p * r == xx * zz + xx * ww + yy * zz + yy * ww) by (nonlinear_arith)
        requires
            p == xx + yy,
            r == zz + ww,
    ;
    assert(rx * rx + ry * ry == 4 * (p * r));
    // rz^2 = (r - p)^2 and |q|^4 = (r + p)^2
    lemma_square_of_sum(r, p);
    assert(rz == r - p && s == r + p);
    assert(rx * rx + ry * ry + rz * rz == s * s);
    lemma_stretched_product(u, rx, rx);
    lemma_stretched_product(u, ry, ry);
    lemma_stretched_product(u, rz, rz);
    lemma_stretched_product(u, s, s);
    assert((u * u) * (rx * rx + ry * ry + rz * rz) == (u * u) * (rx * rx) + (u * u) * (ry * ry) + (
    u * u) * (rz * rz)) by (nonlinear_arith);
}

/// The quotient of `a` by a positive `b`, rounded down.
fn floor_div(a: i128, b: i128) -> (q: i128)
    requires
        b > 0,
        -i128::MAX <= a,
        a + b <= i128::MAX,
        b - a <= i128::MAX,
    ensures
        q == a / b,
{
    if a >= 0 {
        a / b
    } else {
        let m: i128 = -a;
        let c: i128 = (m + b - 1) / b;
        proof {
            lemma_fundamental_div_mod(m + b - 1, b as int);
            assert(b * c == c * b) by (nonlinear_arith);
            assert((-c) * b == -(c * b)) by (nonlinear_arith);
            lemma_fundamental_div_mod_converse(a as int, b as int, -c, b * c - m);
        }
        -c
    }
}

/// An orientation: a non-zero quaternion with integer components. Quaternions
/// that are positive multiples of one another stand for the same rotation.
#[derive(Clone, Copy, Debug, PartialEq, Eq)]
pub struct Rotation {
    x: i128,
    y: i128,
    z: i128,
    w: i128,
}

impl View for Rotation {
    type V = RotationModel;

    closed spec fn view(&self) -> RotationModel {
        RotationModel { x: self.x as int, y: self.y as int, z: self.z as int, w: self.w as int }
    }
}

impl Rotation {
    #[verifier::type_invariant]
    spec fn well_formed(self) -> bool {
        self@.is_valid()
    }

    /// The rotation of the quaternion `(x, y, z, w)`, with `w` the scalar part,
    /// or `None` when the quaternion is zero or a component exceeds
    /// [`ROTATION_MAX`] in magnitude.
    pub fn new(x: i128, y: i128, z: i128, w: i128) -> (rotation: Option<Rotation>)
        ensures
            rotation is Some <==> (RotationModel {
                x: x as int,
                y: y as int,
                z: z as int,
                w: w as int,
            }).is_valid(),
            rotation matches Some(r) ==> r@ == (RotationModel {
                x: x as int,
                y: y as int,
                z: z as int,
                w: w as int,
            }),
    {
        if -ROTATION_MAX <= x && x <= ROTATION_MAX && -ROTATION_MAX <= y && y <= ROTATION_MAX
            && -ROTATION_MAX <= z && z <= ROTATION_MAX && -ROTATION_MAX <= w && w <= ROTATION_MAX
            && !(x == 0 && y == 0 && z == 0 && w == 0) {
            Some(Rotation { x, y, z, w })
        } else {
            None
        }
    }

    /// The rotation that turns nothing.
    pub fn identity() -> (rotation: Rotation)
        ensures
            rotation@ == (RotationModel { x: 0, y: 0, z: 0, w: 1 }),
    {
        Rotation { x: 0, y: 0, z: 0, w: 1 }
    }

    /// The canonical forward axis `+Z`, one world unit long, rotated into world
    /// space and rounded down to the grid.
    pub fn forward(&self) -> (axis: Vector3)
        ensures
            axis@ == self@.forward(),
            axis@.within(UNIT as int),
    {
        let x: i128 = self.x;
        let y: i128 = self.y;
        let z: i128 = self.z;
        let w: i128 = self.w;
        proof {
            use_type_invariant(self);
            lemma_rotation_norm_positive(self@);
            lemma_turned_forward(self@, UNIT as int);
            lemma_forward_bound(self@);
            let m = ROTATION_MAX as int;
            lemma_product_bound(x as int, x as int, m, m);
            lemma_product_bound(y as int, y as int, m, m);
            lemma_product_bound(z as int, z as int, m, m);
            lemma_product_bound(w as int, w as int, m, m);
            lemma_product_bound(x as int, z as int, m, m);
            lemma_product_bound(w as int, y as int, m, m);
            lemma_product_bound(y as int, z as int, m, m);
            lemma_product_bound(w as int, x as int, m, m);
        }
        let s: i128 = x * x + y * y + z * z + w * w;
        let rx: i128 = 2 * (x * z + w * y);
        let ry: i128 = 2 * (y * z - w * x);
        let rz: i128 = w * w - x * x - y * y + z * z;
        Vector3::new(floor_div(UNIT * rx, s), floor_div(UNIT * ry, s), floor_div(UNIT * rz, s))
    }
}

/// Where the camera stands and how it is turned.
#[derive(Clone, Copy, Debug, PartialEq, Eq)]
pub struct CameraPose {
    position: Vector3,
    rotation: Rotation,
}

impl View for CameraPose {
    type V = CameraModel;

    closed spec fn view(&self) -> CameraModel {
        CameraModel { position: self.position@, rotation: self.rotation@ }
    }
}

impl CameraPose {
    #[verifier::type_invariant]
    spec fn well_formed(self) -> bool {
        self.position@.within(COORD_MAX as int)
    }

    /// The pose at `position` turned by `rotation`, or `None` when the position
    /// lies outside the grid.
    pub fn new(position: Vector3, rotation: Rotation) -> (pose: Option<CameraPose>)
        ensures
            pose is Some <==> position@.within(COORD_MAX as int),
            pose matches Some(p) ==> p@ == (CameraModel {
                position: position@,
                rotation: rotation@,
            }),
    {
        if position.is_within(COORD_MAX) {
            Some(CameraPose { position, rotation })
        } else {
            None
        }
    }

    pub fn position(&self) -> (position: Vector3)
        ensures
            position@ == self@.position,
    {
        self.position
    }

    pub fn rotation(&self) -> (rotation: Rotation)
        ensures
            rotation@ == self@.rotation,
    {
        self.rotation
    }

    /// The ray cast for the pixel in column `x` and row `y`: from the camera's
    /// position along its forward axis. Every pixel receives this same ray.
    pub fn ray(&self, x: u32, y: u32) -> (ray: Ray)
        ensures
            ray@ == self@.ray(x as int, y as int),
    {
        proof {
            use_type_invariant(self);
        }
        let direction: Vector3 = self.rotation.forward();
        Ray::new(self.position, direction).unwrap()
    }
}

} // verus!
