//! Fixed-point scalars.
//!
//! A [`Scalar`] stands for the rational `raw / 65536`. Its view is the raw
//! count as an `int`; every operation is stated over that view as the exact
//! result, rounded towards minus infinity where a quotient is taken, and then
//! saturated into the `i32` range.

use vstd::arithmetic::div_mod::{lemma_fundamental_div_mod, lemma_fundamental_div_mod_converse};
use vstd::prelude::*;

verus! {

/// The raw count that stands for 1.
pub const ONE: i32 = 65536;

/// The raw count that stands for one half.
pub const HALF: i32 = 32768;

/// The raw count that stands for one quarter.
pub const QUARTER: i32 = 16384;

/// `x` brought into the `i32` range.
pub open spec fn sat(x: int) -> int {
    if x < -0x8000_0000 {
        -0x8000_0000
    } else if x > 0x7fff_ffff {
        0x7fff_ffff
    } else {
        x
    }
}

/// `x` is a raw count that a scalar can hold.
pub open spec fn in_range(x: int) -> bool {
    -0x8000_0000 <= x <= 0x7fff_ffff
}

/// The quotient `n / d` rounded towards minus infinity, for `d != 0`.
pub open spec fn floor_div(n: int, d: int) -> int {
    if d > 0 {
        n / d
    } else {
        (-n) / (-d)
    }
}

/// The sum of two raw counts, saturated.
pub open spec fn fx_add(a: int, b: int) -> int {
    sat(a + b)
}

/// The difference of two raw counts, saturated.
pub open spec fn fx_sub(a: int, b: int) -> int {
    sat(a - b)
}

/// The absolute value of a raw count; that of the lowest one is saturated.
pub open spec fn fx_abs(a: int) -> int {
    sat(if a < 0 { -a } else { a })
}

/// The smaller of two raw counts.
pub open spec fn fx_min(a: int, b: int) -> int {
    if a <= b {
        a
    } else {
        b
    }
}

/// The larger of two raw counts.
pub open spec fn fx_max(a: int, b: int) -> int {
    if a >= b {
        a
    } else {
        b
    }
}

/// `v` held between `lo` and `hi`, for `lo <= hi`.
pub open spec fn fx_clamp(v: int, lo: int, hi: int) -> int {
    if v < lo {
        lo
    } else if v > hi {
        hi
    } else {
        v
    }
}

/// The product of two raw counts, as a raw count: rounded towards minus
/// infinity and saturated.
pub open spec fn fx_mul(a: int, b: int) -> int {
    sat((a * b) / 65536)
}

/// The quotient of two raw counts, as a raw count, for `b != 0`: rounded
/// towards minus infinity and saturated.
pub open spec fn fx_div(a: int, b: int) -> int {
    sat(floor_div(a * 65536, b))
}

/// `b` raised to the `n`-th power by `n` successive products, starting at 1.
pub open spec fn fx_pow(b: int, n: nat) -> int
    decreases n,
{
    if n == 0 {
        65536
    } else {
        fx_mul(fx_pow(b, (n - 1) as nat), b)
    }
}

/// The largest whole number not above the value of the raw count `a`.
pub open spec fn fx_floor(a: int) -> int {
    a / 65536
}

/// `r` is the integer square root of `n`.
pub open spec fn is_sqrt(n: int, r: int) -> bool {
    0 <= r && r * r <= n && n < (r + 1) * (r + 1)
}

/// The integer square root of `n`, for `n >= 0`.
pub open spec fn sqrt_floor(n: int) -> int {
    choose|r: int| is_sqrt(n, r)
}

/// A number with 16 fractional bits.
#[derive(Clone, Copy, Debug, PartialEq, Eq, Structural)]
pub struct Scalar {
    pub raw: i32,
}

impl View for Scalar {
    type V = int;

    open spec fn view(&self) -> int {
        self.raw as int
    }
}

/// An integer square root is unique.
pub proof fn lemma_sqrt_unique(n: int, r: int, s: int)
    requires
        is_sqrt(n, r),
        is_sqrt(n, s),
    ensures
        r == s,
{
    if r < s {
        assert((r + 1) * (r + 1) <= s * s) by (nonlinear_arith)
            requires
                0 <= r,
                r + 1 <= s,
        ;
    } else if s < r {
        assert((s + 1) * (s + 1) <= r * r) by (nonlinear_arith)
            requires
                0 <= s,
                s + 1 <= r,
        ;
    }
}

/// What has the defining property of the integer square root is the integer
/// square root.
pub proof fn lemma_sqrt_floor(n: int, r: int)
    requires
        is_sqrt(n, r),
    ensures
        sqrt_floor(n) == r,
{
    lemma_sqrt_unique(n, r, sqrt_floor(n));
}

/// Every number from zero on has an integer square root.
pub proof fn lemma_sqrt_exists(n: int)
    requires
        n >= 0,
    ensures
        is_sqrt(n, sqrt_floor(n)),
    decreases n,
{
    if n == 0 {
        assert(is_sqrt(0, 0));
    } else {
        lemma_sqrt_exists(n - 1);
        let r = sqrt_floor(n - 1);
        if n < (r + 1) * (r + 1) {
            assert(is_sqrt(n, r));
        } else {
            assert(is_sqrt(n, r + 1)) by (nonlinear_arith)
                requires
                    0 <= r,
                    n - 1 < (r + 1) * (r + 1),
                    n >= (r + 1) * (r + 1),
            ;
        }
    }
}

/// The integer square root of a square is its root.
pub proof fn lemma_sqrt_of_square(d: int)
    requires
        d >= 0,
    ensures
        is_sqrt(d * d, d),
        sqrt_floor(d * d) == d,
{
    assert(d * d < (d + 1) * (d + 1)) by (nonlinear_arith)
        requires
            d >= 0,
    ;
    lemma_sqrt_floor(d * d, d);
}

/// The integer square root: the `r` with `r * r <= n < (r + 1) * (r + 1)`.
pub fn isqrt(n: u64) -> (r: u64)
    ensures
        is_sqrt(n as int, r as int),
        r == sqrt_floor(n as int),
        r <= 0xffff_ffff,
{
    let mut lo: u64 = 0;
    let mut hi: u64 = 0x1_0000_0000;
    while hi - lo > 1
        invariant
            lo < hi <= 0x1_0000_0000,
            lo * lo <= n,
            n < hi * hi,
        decreases hi - lo,
    {
        let mid: u64 = lo + (hi - lo) / 2;
        assert(mid * mid <= 0xffff_ffff * 0xffff_ffff) by (nonlinear_arith)
            requires
                0 <= mid <= 0xffff_ffff,
        ;
        if mid * mid <= n {
            lo = mid;
        } else {
            hi = mid;
        }
    }
    proof {
        lemma_sqrt_floor(n as int, lo as int);
    }
    lo
}

/// The quotient of `n` by a positive `d`, rounded towards minus infinity.
pub fn div_floor(n: i128, d: i128) -> (q: i128)
    requires
        d > 0,
    ensures
        q == n / d,
{
    let q: i128 = n / d;
    let r: i128 = n % d;
    if r < 0 {
        proof {
            // Here `q` is the truncated quotient `-((-n) / d)`, which the
            // floor lies one below; it is above `i128::MIN` because the
            // division is not exact, so `d > 1`.
            lemma_floor_of_negative(n as int, d as int);
            assert((-n) % 1 == 0);
            vstd::arithmetic::div_mod::lemma_div_decreases(-n, d as int);
        }
        q - 1
    } else {
        proof {
            if n < 0 {
                lemma_floor_of_negative(n as int, d as int);
            }
        }
        q
    }
}

/// For a negative numerator the floor of the quotient lies one below the
/// truncated quotient, unless the division is exact.
proof fn lemma_floor_of_negative(n: int, d: int)
    requires
        n < 0,
        d > 0,
    ensures
        (-n) % d == 0 ==> n / d == -((-n) / d),
        (-n) % d != 0 ==> n / d == -((-n) / d) - 1,
{
    let m = -n;
    let q = m / d;
    let r = m % d;
    lemma_fundamental_div_mod(m, d);
    assert(0 <= r < d);
    if r == 0 {
        assert(n == (-q) * d + 0) by (nonlinear_arith)
            requires
                m == d * q + r,
                r == 0,
                n == -m,
        ;
        lemma_fundamental_div_mod_converse(n, d, -q, 0);
    } else {
        assert(n == (-q - 1) * d + (d - r)) by (nonlinear_arith)
            requires
                m == d * q + r,
                n == -m,
        ;
        lemma_fundamental_div_mod_converse(n, d, -q - 1, d - r);
    }
}

/// The product of two scalars that are not negative is not negative.
pub proof fn lemma_mul_nonnegative(a: int, b: int)
    requires
        a >= 0,
        b >= 0,
    ensures
        fx_mul(a, b) >= 0,
        a == 0 || b == 0 ==> fx_mul(a, b) == 0,
{
    assert(a * b >= 0 && (a == 0 || b == 0 ==> a * b == 0)) by (nonlinear_arith)
        requires
            a >= 0,
            b >= 0,
    ;
    vstd::arithmetic::div_mod::lemma_div_pos_is_pos(a * b, 65536);
}

/// The product with a scalar that is not negative grows with the other
/// factor, and the product with 1 is the other factor.
pub proof fn lemma_mul_monotone(a: int, a2: int, b: int)
    requires
        a <= a2,
        b >= 0,
    ensures
        fx_mul(a, b) <= fx_mul(a2, b),
        in_range(b) ==> fx_mul(65536, b) == b && fx_mul(b, 65536) == b,
{
    assert(a * b <= a2 * b) by (nonlinear_arith)
        requires
            a <= a2,
            b >= 0,
    ;
    vstd::arithmetic::div_mod::lemma_div_is_ordered(a * b, a2 * b, 65536);
}

/// The quotient of a scalar by one that is at least as large lies between
/// -1 and 1, and has the sign of the scalar.
pub proof fn lemma_quotient_bounds(c: int, m: int)
    requires
        0 < m,
        -m <= c <= m,
    ensures
        -65536 <= fx_div(c, m) <= 65536,
        c >= 0 ==> fx_div(c, m) >= 0,
        c <= 0 ==> fx_div(c, m) <= 0,
{
    assert(-(m * 65536) <= c * 65536 <= m * 65536) by (nonlinear_arith)
        requires
            -m <= c <= m,
    ;
    assert(m * -65536 == -(m * 65536)) by (nonlinear_arith);
    vstd::arithmetic::div_mod::lemma_div_is_ordered(m * -65536, c * 65536, m);
    vstd::arithmetic::div_mod::lemma_div_is_ordered(c * 65536, m * 65536, m);
    vstd::arithmetic::div_mod::lemma_div_multiples_vanish(65536, m);
    vstd::arithmetic::div_mod::lemma_div_multiples_vanish(-65536, m);
    if c >= 0 {
        vstd::arithmetic::div_mod::lemma_div_is_ordered(0, c * 65536, m);
    }
    if c <= 0 {
        vstd::arithmetic::div_mod::lemma_div_is_ordered(c * 65536, 0, m);
    }
    assert(0int / m == 0) by (nonlinear_arith)
        requires
            m > 0,
    ;
}

/// `input` held between `min` and `max`.
///
/// Calls `num::clamp`, which returns `min` for an input below `min`, `max`
/// for an input above `max`, and the input otherwise. In a debug build it
/// panics unless `min <= max`.
#[verifier::external_body]
pub(crate) fn clamp_raw(input: i32, min: i32, max: i32) -> (r: i32)
    requires
        min <= max,
    ensures
        r == fx_clamp(input as int, min as int, max as int),
{
    num::clamp(input, min, max)
}

/// `x` brought into the range of a scalar.
pub fn saturate(x: i128) -> (r: Scalar)
    ensures
        r@ == sat(x as int),
{
    if x < -0x8000_0000 {
        Scalar { raw: i32::MIN }
    } else if x > 0x7fff_ffff {
        Scalar { raw: i32::MAX }
    } else {
        Scalar { raw: x as i32 }
    }
}

impl Scalar {
    /// The whole number `n`, saturated.
    pub fn from_int(n: i32) -> (r: Scalar)
        ensures
            r@ == sat(n * 65536),
    {
        saturate(n as i128 * 65536)
    }

    /// The quotient `num / den` of two whole numbers, for a positive `den`.
    pub fn from_ratio(num: i64, den: i64) -> (r: Scalar)
        requires
            den > 0,
        ensures
            r@ == sat((num * 65536) / (den as int)),
    {
        saturate(div_floor(num as i128 * 65536, den as i128))
    }

    /// The sum, saturated.
    pub fn add(self, rhs: Scalar) -> (r: Scalar)
        ensures
            r@ == fx_add(self@, rhs@),
    {
        saturate(self.raw as i128 + rhs.raw as i128)
    }

    /// The difference, saturated.
    pub fn sub(self, rhs: Scalar) -> (r: Scalar)
        ensures
            r@ == fx_sub(self@, rhs@),
    {
        saturate(self.raw as i128 - rhs.raw as i128)
    }

    /// The absolute value; that of the lowest scalar is the highest one.
    pub fn abs(self) -> (r: Scalar)
        ensures
            r@ == fx_abs(self@),
    {
        if self.raw < 0 {
            saturate(-(self.raw as i128))
        } else {
            self
        }
    }

    /// The smaller of the two.
    pub fn min(self, rhs: Scalar) -> (r: Scalar)
        ensures
            r@ == fx_min(self@, rhs@),
    {
        if self.raw <= rhs.raw {
            self
        } else {
            rhs
        }
    }

    /// The larger of the two.
    pub fn max(self, rhs: Scalar) -> (r: Scalar)
        ensures
            r@ == fx_max(self@, rhs@),
    {
        if self.raw >= rhs.raw {
            self
        } else {
            rhs
        }
    }

    /// The scalar held between `lo` and `hi`, for `lo` not above `hi`.
    pub fn clamp(self, lo: Scalar, hi: Scalar) -> (r: Scalar)
        requires
            lo@ <= hi@,
        ensures
            r@ == fx_clamp(self@, lo@, hi@),
    {
        Scalar { raw: clamp_raw(self.raw, lo.raw, hi.raw) }
    }

    /// The product, rounded towards minus infinity and saturated.
    pub fn mul(self, rhs: Scalar) -> (r: Scalar)
        ensures
            r@ == fx_mul(self@, rhs@),
    {
        let a: i128 = self.raw as i128;
        let b: i128 = rhs.raw as i128;
        assert(-0x4000_0000_0000_0000 <= a * b <= 0x4000_0000_0000_0000) by (nonlinear_arith)
            requires
                -0x8000_0000 <= a <= 0x7fff_ffff,
                -0x8000_0000 <= b <= 0x7fff_ffff,
        ;
        saturate(div_floor(a * b, 65536))
    }

    /// The quotient by a divisor other than zero, rounded towards minus
    /// infinity and saturated.
    pub fn div(self, rhs: Scalar) -> (r: Scalar)
        requires
            rhs@ != 0,
        ensures
            r@ == fx_div(self@, rhs@),
    {
        let n: i128 = self.raw as i128 * 65536;
        let d: i128 = rhs.raw as i128;
        if d > 0 {
            saturate(div_floor(n, d))
        } else {
            saturate(div_floor(-n, -d))
        }
    }

    /// The `n`-th power, by `n` successive products.
    pub fn pow(self, n: u32) -> (r: Scalar)
        ensures
            r@ == fx_pow(self@, n as nat),
    {
        let mut acc: Scalar = Scalar { raw: ONE };
        let mut i: u32 = 0;
        while i < n
            invariant
                i <= n,
                acc@ == fx_pow(self@, i as nat),
            decreases n - i,
        {
            acc = acc.mul(self);
            i = i + 1;
        }
        acc
    }

    /// The largest whole number not above the scalar.
    pub fn floor(self) -> (r: i32)
        ensures
            r == fx_floor(self@),
    {
        let q: i128 = div_floor(self.raw as i128, 65536);
        q as i32
    }
}

} // verus!
