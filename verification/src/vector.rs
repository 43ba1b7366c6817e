//! Three-component integer vectors: the mathematical model and the machine type.
use vstd::math::abs;
use vstd::prelude::*;

verus! {

/// A vector of three mathematical integers, the model of a [`Vector3`].
pub struct IntVector {
    pub x: int,
    pub y: int,
    pub z: int,
}

impl IntVector {
    pub open spec fn zero() -> IntVector {
        IntVector { x: 0, y: 0, z: 0 }
    }

    /// Componentwise sum.
    pub open spec fn plus(self, rhs: IntVector) -> IntVector {
        IntVector { x: self.x + rhs.x, y: self.y + rhs.y, z: self.z + rhs.z }
    }

    /// Componentwise difference.
    pub open spec fn minus(self, rhs: IntVector) -> IntVector {
        IntVector { x: self.x - rhs.x, y: self.y - rhs.y, z: self.z - rhs.z }
    }

    /// Every component multiplied by `k`.
    pub open spec fn scaled(self, k: int) -> IntVector {
        IntVector { x: self.x * k, y: self.y * k, z: self.z * k }
    }

    /// Dot product.
    pub open spec fn dot(self, rhs: IntVector) -> int {
        self.x * rhs.x + self.y * rhs.y + self.z * rhs.z
    }

    /// Cross product, right-handed.
    pub open spec fn cross(self, rhs: IntVector) -> IntVector {
        IntVector {
            x: self.y * rhs.z - self.z * rhs.y,
            y: self.z * rhs.x - self.x * rhs.z,
            z: self.x * rhs.y - self.y * rhs.x,
        }
    }

    /// Squared Euclidean length.
    pub open spec fn norm_squared(self) -> int {
        self.dot(self)
    }

    pub open spec fn is_zero(self) -> bool {
        self.x == 0 && self.y == 0 && self.z == 0
    }

    /// The largest magnitude among the three components.
    pub open spec fn max_abs(self) -> int {
        vstd::math::max3(abs(self.x) as int, abs(self.y) as int, abs(self.z) as int)
    }

    /// No component exceeds `bound` in magnitude.
    pub open spec fn within(self, bound: int) -> bool {
        &&& -bound <= self.x <= bound
        &&& -bound <= self.y <= bound
        &&& -bound <= self.z <= bound
    }
}

/// The magnitude of a product is bounded by the product of bounds on its factors.
pub proof fn lemma_product_bound(a: int, b: int, m: int, n: int)
    by (nonlinear_arith)
    requires
        -m <= a <= m,
        -n <= b <= n,
    ensures
        -(m * n) <= a * b <= m * n,
{
}

/// A vector lies within the bound given by its own largest component, and within
/// `bound` exactly when that component does not exceed `bound`.
pub proof fn lemma_max_abs_within(v: IntVector, bound: int)
    ensures
        v.max_abs() >= 0,
        v.within(v.max_abs()),
        v.within(bound) <==> v.max_abs() <= bound,
{
}

/// The largest components of bounded vectors multiply to at most the product of
/// the bounds.
pub proof fn lemma_operands_fit(a: IntVector, b: IntVector, m: int, n: int)
    requires
        a.within(m),
        b.within(n),
    ensures
        0 <= a.max_abs() * b.max_abs() <= m * n,
{
    lemma_product_bound(a.max_abs(), b.max_abs(), m, n);
    lemma_product_bound(a.max_abs(), b.max_abs(), a.max_abs(), b.max_abs());
}

/// A dot product of bounded vectors is bounded by three times the product of the
/// bounds.
pub proof fn lemma_dot_bound(a: IntVector, b: IntVector, m: int, n: int)
    requires
        a.within(m),
        b.within(n),
    ensures
        -(3 * (m * n)) <= a.dot(b) <= 3 * (m * n),
{
    lemma_product_bound(a.x, b.x, m, n);
    lemma_product_bound(a.y, b.y, m, n);
    lemma_product_bound(a.z, b.z, m, n);
}

/// A cross product of bounded vectors is bounded by twice the product of the bounds.
pub proof fn lemma_cross_bound(a: IntVector, b: IntVector, m: int, n: int)
    requires
        a.within(m),
        b.within(n),
    ensures
        a.cross(b).within(2 * (m * n)),
{
    lemma_product_bound(a.y, b.z, m, n);
    lemma_product_bound(a.z, b.y, m, n);
    lemma_product_bound(a.z, b.x, m, n);
    lemma_product_bound(a.x, b.z, m, n);
    lemma_product_bound(a.x, b.y, m, n);
    lemma_product_bound(a.y, b.x, m, n);
}

/// Scaling a bounded vector by a bounded factor scales the bound.
pub proof fn lemma_scaled_bound(a: IntVector, k: int, m: int, n: int)
    requires
        a.within(m),
        -n <= k <= n,
    ensures
        a.scaled(k).within(m * n),
{
    lemma_product_bound(a.x, k, m, n);
    lemma_product_bound(a.y, k, m, n);
    lemma_product_bound(a.z, k, m, n);
}

/// A vector with `i128` components.
///
/// Grid points, directions, face normals and the scaled intermediates of the
/// intersection test are all values of this type. Its operations demand that
/// their results fit; the demand is stated over the operands' largest components.
#[derive(Clone, Copy, Debug, PartialEq, Eq, Structural)]
pub struct Vector3 {
    pub x: i128,
    pub y: i128,
    pub z: i128,
}

impl View for Vector3 {
    type V = IntVector;

    open spec fn view(&self) -> IntVector {
        IntVector { x: self.x as int, y: self.y as int, z: self.z as int }
    }
}

impl Vector3 {
    pub fn new(x: i128, y: i128, z: i128) -> (v: Vector3)
        ensures
            v@ == (IntVector { x: x as int, y: y as int, z: z as int }),
    {
        Vector3 { x, y, z }
    }

    /// Componentwise sum.
    pub fn plus(self, rhs: Vector3) -> (sum: Vector3)
        requires
            self@.max_abs() + rhs@.max_abs() <= i128::MAX,
        ensures
            sum@ == self@.plus(rhs@),
    {
        Vector3 { x: self.x + rhs.x, y: self.y + rhs.y, z: self.z + rhs.z }
    }

    /// Componentwise difference.
    pub fn minus(self, rhs: Vector3) -> (difference: Vector3)
        requires
            self@.max_abs() + rhs@.max_abs() <= i128::MAX,
        ensures
            difference@ == self@.minus(rhs@),
    {
        Vector3 { x: self.x - rhs.x, y: self.y - rhs.y, z: self.z - rhs.z }
    }

    /// Every component multiplied by `k`.
    pub fn scale(self, k: i128) -> (product: Vector3)
        requires
            self@.max_abs() * abs(k as int) <= i128::MAX,
        ensures
            product@ == self@.scaled(k as int),
    {
        proof {
            let m = self@.max_abs();
            let n = abs(k as int) as int;
            lemma_product_bound(self.x as int, k as int, m, n);
            lemma_product_bound(self.y as int, k as int, m, n);
            lemma_product_bound(self.z as int, k as int, m, n);
        }
        Vector3 { x: self.x * k, y: self.y * k, z: self.z * k }
    }

    /// Dot product.
    pub fn dot(self, rhs: Vector3) -> (product: i128)
        requires
            3 * (self@.max_abs() * rhs@.max_abs()) <= i128::MAX,
        ensures
            product == self@.dot(rhs@),
    {
        proof {
            let m = self@.max_abs();
            let n = rhs@.max_abs();
            lemma_product_bound(self.x as int, rhs.x as int, m, n);
            lemma_product_bound(self.y as int, rhs.y as int, m, n);
            lemma_product_bound(self.z as int, rhs.z as int, m, n);
        }
        self.x * rhs.x + self.y * rhs.y + self.z * rhs.z
    }

    /// Cross product, right-handed.
    pub fn cross(self, rhs: Vector3) -> (product: Vector3)
        requires
            2 * (self@.max_abs() * rhs@.max_abs()) <= i128::MAX,
        ensures
            product@ == self@.cross(rhs@),
    {
        proof {
            let m = self@.max_abs();
            let n = rhs@.max_abs();
            lemma_product_bound(self.y as int, rhs.z as int, m, n);
            lemma_product_bound(self.z as int, rhs.y as int, m, n);
            lemma_product_bound(self.z as int, rhs.x as int, m, n);
            lemma_product_bound(self.x as int, rhs.z as int, m, n);
            lemma_product_bound(self.x as int, rhs.y as int, m, n);
            lemma_product_bound(self.y as int, rhs.x as int, m, n);
        }
        Vector3 {
            x: self.y * rhs.z - self.z * rhs.y,
            y: self.z * rhs.x - self.x * rhs.z,
            z: self.x * rhs.y - self.y * rhs.x,
        }
    }

    pub fn is_zero(&self) -> (zero: bool)
        ensures
            zero == self@.is_zero(),
    {
        self.x == 0 && self.y == 0 && self.z == 0
    }

    /// Whether no component exceeds `bound` in magnitude.
    pub fn is_within(&self, bound: i128) -> (inside: bool)
        ensures
            inside == self@.within(bound as int),
    {
        if bound < 0 {
            false
        } else {
            -bound <= self.x && self.x <= bound && -bound <= self.y && self.y <= bound && -bound
                <= self.z && self.z <= bound
        }
    }
}

} // verus!
