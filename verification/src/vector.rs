//! Three-component vectors of fixed-point scalars.

use crate::scalar::{
    div_floor, fx_add, fx_div, fx_mul, fx_sub, in_range, is_sqrt, isqrt, lemma_quotient_bounds,
    lemma_sqrt_exists, sat, saturate, Scalar, sqrt_floor,
};
use vstd::prelude::*;

verus! {

/// The mathematical view of a [`Vec3`]: three raw counts.
pub struct SpecVec3 {
    pub x: int,
    pub y: int,
    pub z: int,
}

/// The sum of two vectors, component by component.
pub open spec fn vec_add(a: SpecVec3, b: SpecVec3) -> SpecVec3 {
    SpecVec3 { x: fx_add(a.x, b.x), y: fx_add(a.y, b.y), z: fx_add(a.z, b.z) }
}

/// The difference of two vectors, component by component.
pub open spec fn vec_sub(a: SpecVec3, b: SpecVec3) -> SpecVec3 {
    SpecVec3 { x: fx_sub(a.x, b.x), y: fx_sub(a.y, b.y), z: fx_sub(a.z, b.z) }
}

/// Every component of `v` multiplied by `s`.
pub open spec fn vec_scale(v: SpecVec3, s: int) -> SpecVec3 {
    SpecVec3 { x: fx_mul(v.x, s), y: fx_mul(v.y, s), z: fx_mul(v.z, s) }
}

/// The sum of the products of the components: the dot product in units of
/// 1/65536 squared, with nothing rounded.
pub open spec fn dot_raw(a: SpecVec3, b: SpecVec3) -> int {
    a.x * b.x + a.y * b.y + a.z * b.z
}

/// The dot product as a raw count.
pub open spec fn vec_dot(a: SpecVec3, b: SpecVec3) -> int {
    sat(dot_raw(a, b) / 65536)
}

/// The length of `v` as a raw count: the integer square root of the sum of
/// its squared components.
pub open spec fn vec_magnitude(v: SpecVec3) -> int {
    sat(sqrt_floor(dot_raw(v, v)))
}

/// `v` divided by its length, for a `v` other than zero.
pub open spec fn vec_normalize(v: SpecVec3) -> SpecVec3 {
    let m = vec_magnitude(v);
    SpecVec3 { x: fx_div(v.x, m), y: fx_div(v.y, m), z: fx_div(v.z, m) }
}

/// The direction of `v`: `v` divided by its length, and the zero vector,
/// which has no direction, as it is.
pub open spec fn vec_direction(v: SpecVec3) -> SpecVec3 {
    if vec_magnitude(v) == 0 {
        v
    } else {
        vec_normalize(v)
    }
}

/// `n` has the length 1 up to the rounding of a division by the raw length
/// `m`: its squared length is no less than `1 - 6 / 65536`, and exceeds 1 by
/// little more than `2 / m`.
pub open spec fn nearly_unit(n: SpecVec3, m: int) -> bool {
    &&& dot_raw(n, n) >= 65536 * 65536 - 6 * 65536
    &&& m * dot_raw(n, n) <= m * (65536 * 65536 + 6 * 65536 + 3) + 2 * (65536 * 65536)
}

/// A vector of three scalars.
#[derive(Clone, Copy, Debug, PartialEq, Eq, Structural)]
pub struct Vec3 {
    pub x: Scalar,
    pub y: Scalar,
    pub z: Scalar,
}

impl View for Vec3 {
    type V = SpecVec3;

    open spec fn view(&self) -> SpecVec3 {
        SpecVec3 { x: self.x@, y: self.y@, z: self.z@ }
    }
}

/// The sum of the products of the components of `a` and `b`, exact.
///
/// Calls `cgmath::InnerSpace::dot` on the two vectors as `Vector3<i128>`.
/// That method multiplies component by component and adds up the three
/// products; over `i128` no product of two `i32` components, and no sum of
/// three such products, leaves the range, so the result is the exact sum.
#[verifier::external_body]
fn wide_dot(a: Vec3, b: Vec3) -> (r: i128)
    ensures
        r == dot_raw(a@, b@),
{
    let u = cgmath::Vector3::new(a.x.raw as i128, a.y.raw as i128, a.z.raw as i128);
    let v = cgmath::Vector3::new(b.x.raw as i128, b.y.raw as i128, b.z.raw as i128);
    cgmath::InnerSpace::dot(u, v)
}

/// The sum of the squared components is bounded, and vanishes only for the
/// zero vector.
pub proof fn lemma_norm_bounds(v: SpecVec3)
    requires
        in_range(v.x),
        in_range(v.y),
        in_range(v.z),
    ensures
        0 <= dot_raw(v, v) <= 3 * 0x4000_0000_0000_0000,
        dot_raw(v, v) == 0 <==> (v.x == 0 && v.y == 0 && v.z == 0),
{
    let (x, y, z) = (v.x, v.y, v.z);
    assert(0 <= x * x <= 0x4000_0000_0000_0000 && (x * x == 0 <==> x == 0)) by (nonlinear_arith)
        requires
            -0x8000_0000 <= x <= 0x7fff_ffff,
    ;
    assert(0 <= y * y <= 0x4000_0000_0000_0000 && (y * y == 0 <==> y == 0)) by (nonlinear_arith)
        requires
            -0x8000_0000 <= y <= 0x7fff_ffff,
    ;
    assert(0 <= z * z <= 0x4000_0000_0000_0000 && (z * z == 0 <==> z == 0)) by (nonlinear_arith)
        requires
            -0x8000_0000 <= z <= 0x7fff_ffff,
    ;
}

/// The length of a vector vanishes only for the zero vector.
pub proof fn lemma_magnitude_zero(v: SpecVec3)
    requires
        in_range(v.x),
        in_range(v.y),
        in_range(v.z),
    ensures
        vec_magnitude(v) == 0 <==> (v.x == 0 && v.y == 0 && v.z == 0),
        vec_magnitude(v) >= 0,
{
    lemma_norm_bounds(v);
    let n = dot_raw(v, v);
    lemma_sqrt_exists(n);
    let r = sqrt_floor(n);
    assert(is_sqrt(n, r));
    if n == 0 {
        assert(r == 0) by (nonlinear_arith)
            requires
                0 <= r,
                r * r <= 0,
        ;
    } else {
        assert(r != 0) by (nonlinear_arith)
            requires
                n < (r + 1) * (r + 1),
                n >= 1,
        ;
    }
}

/// No component of a vector exceeds its length.
pub proof fn lemma_component_below_magnitude(v: SpecVec3)
    requires
        in_range(v.x),
        in_range(v.y),
        in_range(v.z),
        vec_magnitude(v) < 0x7fff_ffff,
    ensures
        -vec_magnitude(v) <= v.x <= vec_magnitude(v),
        -vec_magnitude(v) <= v.y <= vec_magnitude(v),
        -vec_magnitude(v) <= v.z <= vec_magnitude(v),
{
    lemma_norm_bounds(v);
    let n = dot_raw(v, v);
    lemma_sqrt_exists(n);
    let m = sqrt_floor(n);
    let (x, y, z) = (v.x, v.y, v.z);
    assert(-m <= x <= m && -m <= y <= m && -m <= z <= m) by (nonlinear_arith)
        requires
            x * x + y * y + z * z < (m + 1) * (m + 1),
            0 <= m,
    ;
}

/// A vector of length 1 has no component beyond -1 and 1, and every
/// component has the sign that it had before.
pub proof fn lemma_normalize_bounds(v: SpecVec3)
    requires
        in_range(v.x),
        in_range(v.y),
        in_range(v.z),
        0 < vec_magnitude(v) < 0x7fff_ffff,
    ensures
        -65536 <= vec_normalize(v).x <= 65536,
        -65536 <= vec_normalize(v).y <= 65536,
        -65536 <= vec_normalize(v).z <= 65536,
        v.x >= 0 ==> vec_normalize(v).x >= 0,
        v.x <= 0 ==> vec_normalize(v).x <= 0,
        v.y >= 0 ==> vec_normalize(v).y >= 0,
        v.y <= 0 ==> vec_normalize(v).y <= 0,
        v.z >= 0 ==> vec_normalize(v).z >= 0,
        v.z <= 0 ==> vec_normalize(v).z <= 0,
{
    lemma_component_below_magnitude(v);
    let m = vec_magnitude(v);
    lemma_quotient_bounds(v.x, m);
    lemma_quotient_bounds(v.y, m);
    lemma_quotient_bounds(v.z, m);
}

/// The square of a product is the product of the squares.
proof fn lemma_square_of_product(a: int, b: int)
    ensures
        (a * b) * (a * b) == (b * b) * (a * a),
{
    assert((a * b) * (a * b) == (b * b) * (a * a)) by (nonlinear_arith);
}

/// How far the square of a quotient, scaled back by the divisor, can lie
/// from the square of the scaled dividend: the quotient is rounded down by
/// less than one unit.
proof fn lemma_quotient_square(c: int, m: int)
    requires
        0 < m,
        -m <= c <= m,
    ensures
        ({
            let a = fx_div(c, m) * m;
            let b = c * 65536;
            let slack = 65536 * (m * m);
            b * b - 2 * slack <= a * a <= b * b + 2 * slack + m * m
        }),
{
    lemma_quotient_bounds(c, m);
    let b = c * 65536;
    let q = b / m;
    let r = b % m;
    assert(fx_div(c, m) == q);
    vstd::arithmetic::div_mod::lemma_fundamental_div_mod(b, m);
    vstd::arithmetic::div_mod::lemma_mod_bound(b, m);
    let a = q * m;
    assert(a == b - r) by (nonlinear_arith)
        requires
            b == m * q + r,
            a == q * m,
    ;
    let k = 65536 * m;
    assert(-k <= b <= k);
    assert(-(k * m) <= b * r <= k * m) by (nonlinear_arith)
        requires
            -k <= b <= k,
            0 <= r <= m,
            0 <= k,
    ;
    assert(k * m == 65536 * (m * m)) by (nonlinear_arith)
        requires
            k == 65536 * m,
    ;
    assert(0 <= r * r <= m * m) by (nonlinear_arith)
        requires
            0 <= r <= m,
    ;
    assert(a * a == b * b - 2 * (b * r) + r * r) by (nonlinear_arith)
        requires
            a == b - r,
    ;
}

/// A vector scaled to length 1 has the length 1 up to the rounding, unless
/// its length before was more than a scalar can hold.
pub proof fn lemma_normalize_length(v: SpecVec3)
    requires
        in_range(v.x),
        in_range(v.y),
        in_range(v.z),
        0 < vec_magnitude(v) < 0x7fff_ffff,
    ensures
        nearly_unit(vec_normalize(v), vec_magnitude(v)),
{
    let m = vec_magnitude(v);
    let n = vec_normalize(v);
    lemma_component_below_magnitude(v);
    lemma_norm_bounds(v);
    let sum = dot_raw(v, v);
    lemma_sqrt_exists(sum);
    assert(m == sqrt_floor(sum));
    assert(m * m <= sum < (m + 1) * (m + 1));
    lemma_quotient_square(v.x, m);
    lemma_quotient_square(v.y, m);
    lemma_quotient_square(v.z, m);
    let mm = m * m;
    let one = 65536 * 65536;
    let big = dot_raw(n, n);
    assert(mm > 0 && (m + 1) * (m + 1) == mm + 2 * m + 1) by (nonlinear_arith)
        requires
            m > 0,
            mm == m * m,
    ;
    // The squared length of the scaled vector, times the square of the
    // divisor.
    lemma_square_of_product(n.x, m);
    lemma_square_of_product(n.y, m);
    lemma_square_of_product(n.z, m);
    assert(mm * (n.x * n.x) + mm * (n.y * n.y) + mm * (n.z * n.z) == mm * big) by (nonlinear_arith)
        requires
            big == n.x * n.x + n.y * n.y + n.z * n.z,
    ;
    // The squared length of the vector, times the square of 1.
    lemma_square_of_product(v.x, 65536);
    lemma_square_of_product(v.y, 65536);
    lemma_square_of_product(v.z, 65536);
    assert(one * (v.x * v.x) + one * (v.y * v.y) + one * (v.z * v.z) == one * sum)
        by (nonlinear_arith)
        requires
            sum == v.x * v.x + v.y * v.y + v.z * v.z,
    ;
    let slack = 65536 * mm;
    assert(one * sum - 6 * slack <= mm * big <= one * sum + 6 * slack + 3 * mm);
    assert(one * mm <= one * sum <= one * (mm + 2 * m)) by (nonlinear_arith)
        requires
            mm <= sum <= mm + 2 * m,
            one >= 0,
    ;
    assert(big >= one - 6 * 65536) by (nonlinear_arith)
        requires
            one * mm - 6 * (65536 * mm) <= mm * big,
            mm > 0,
    ;
    assert(m * big <= m * (one + 6 * 65536 + 3) + 2 * one) by (nonlinear_arith)
        requires
            mm * big <= one * (mm + 2 * m) + 6 * (65536 * mm) + 3 * mm,
            mm == m * m,
            m > 0,
    ;
}

impl Vec3 {
    /// The vector with the given components.
    pub fn new(x: Scalar, y: Scalar, z: Scalar) -> (v: Vec3)
        ensures
            v.x == x,
            v.y == y,
            v.z == z,
    {
        Vec3 { x, y, z }
    }

    /// The sum, component by component.
    pub fn add(self, rhs: Vec3) -> (v: Vec3)
        ensures
            v@ == vec_add(self@, rhs@),
    {
        Vec3 { x: self.x.add(rhs.x), y: self.y.add(rhs.y), z: self.z.add(rhs.z) }
    }

    /// The difference, component by component.
    pub fn sub(self, rhs: Vec3) -> (v: Vec3)
        ensures
            v@ == vec_sub(self@, rhs@),
    {
        Vec3 { x: self.x.sub(rhs.x), y: self.y.sub(rhs.y), z: self.z.sub(rhs.z) }
    }

    /// Every component multiplied by `s`.
    pub fn scale(self, s: Scalar) -> (v: Vec3)
        ensures
            v@ == vec_scale(self@, s@),
    {
        Vec3 { x: self.x.mul(s), y: self.y.mul(s), z: self.z.mul(s) }
    }

    /// The dot product: the products of the components are added up
    /// exactly, and the sum is rounded once.
    pub fn dot(self, rhs: Vec3) -> (d: Scalar)
        ensures
            d@ == vec_dot(self@, rhs@),
    {
        saturate(div_floor(wide_dot(self, rhs), 65536))
    }

    /// The length of the vector.
    pub fn magnitude(self) -> (m: Scalar)
        ensures
            m@ == vec_magnitude(self@),
    {
        let n: i128 = wide_dot(self, self);
        proof {
            lemma_norm_bounds(self@);
        }
        let r: u64 = isqrt(n as u64);
        saturate(r as i128)
    }

    /// The vector scaled to length 1. The zero vector has no direction and
    /// is left out.
    pub fn normalize(self) -> (v: Vec3)
        requires
            vec_magnitude(self@) != 0,
        ensures
            v@ == vec_normalize(self@),
            vec_magnitude(self@) < i32::MAX ==> nearly_unit(v@, vec_magnitude(self@)),
    {
        proof {
            lemma_magnitude_zero(self@);
            if vec_magnitude(self@) < i32::MAX {
                lemma_normalize_length(self@);
            }
        }
        let m: Scalar = self.magnitude();
        Vec3 { x: self.x.div(m), y: self.y.div(m), z: self.z.div(m) }
    }

    /// The vector scaled to length 1, or the zero vector as it is.
    pub fn normalize_or_zero(self) -> (v: Vec3)
        ensures
            v@ == vec_direction(self@),
            vec_magnitude(self@) != 0 ==> v@ == vec_normalize(self@),
            vec_magnitude(self@) == 0 ==> v == self,
            0 < vec_magnitude(self@) < i32::MAX ==> nearly_unit(v@, vec_magnitude(self@)),
    {
        if self.magnitude().raw == 0 {
            self
        } else {
            self.normalize()
        }
    }
}

} // verus!
