//! Signed distance functions of the primitives.
//!
//! A distance is negative inside a solid, zero on its boundary and positive
//! outside, and never above the true distance to the boundary, so that a ray
//! may advance by it without passing through a surface.

use crate::scalar::{
    div_floor, floor_div, fx_abs, fx_add, fx_max, fx_mul, fx_sub, HALF, in_range,
    lemma_sqrt_exists, lemma_sqrt_of_square, ONE, sat, saturate, Scalar, sqrt_floor,
};
use crate::vector::{dot_raw, lemma_norm_bounds, SpecVec3, Vec3, vec_dot, vec_magnitude, vec_sub};
use vstd::arithmetic::div_mod::{lemma_fundamental_div_mod, lemma_mod_bound};
use vstd::prelude::*;

verus! {

/// The distance from `p` to the sphere round `center`.
pub open spec fn sphere_distance(center: SpecVec3, radius: int, p: SpecVec3) -> int {
    fx_sub(vec_magnitude(vec_sub(center, p)), radius)
}

/// The distance from `p` to the plane of all `q` with `q . normal + offset = 0`,
/// positive on the side the normal points to.
pub open spec fn plane_distance(normal: SpecVec3, offset: int, p: SpecVec3) -> int {
    fx_add(vec_dot(p, normal), offset)
}

/// How far `p` lies beyond the half-extent `b` on one axis of a box centred
/// at `c`; zero between the two faces.
pub open spec fn beyond(p: int, c: int, b: int) -> int {
    fx_max(fx_sub(fx_abs(fx_sub(p, c)), b), 0)
}

/// The distance from `p` to the axis-aligned box round `center` with the
/// half-extents `half`; zero everywhere inside.
pub open spec fn cube_distance(center: SpecVec3, half: SpecVec3, p: SpecVec3) -> int {
    vec_magnitude(
        SpecVec3 {
            x: beyond(p.x, center.x, half.x),
            y: beyond(p.y, center.y, half.y),
            z: beyond(p.z, center.z, half.z),
        },
    )
}

/// The square of the distance between `a` and `b`, with nothing rounded and
/// nothing saturated.
pub open spec fn distance_squared(a: SpecVec3, b: SpecVec3) -> int {
    (a.x - b.x) * (a.x - b.x) + (a.y - b.y) * (a.y - b.y) + (a.z - b.z) * (a.z - b.z)
}

/// How far `p` lies beyond the half-extent `b` on one axis of a box centred
/// at `c`, with nothing saturated.
pub open spec fn beyond_exact(p: int, c: int, b: int) -> int {
    let a = if p >= c {
        p - c - b
    } else {
        c - p - b
    };
    if a > 0 {
        a
    } else {
        0
    }
}

/// `x - y * floor(x / y)`, for `y != 0`: exact, with the sign of `y`.
pub open spec fn fx_fmod(x: int, y: int) -> int {
    x - y * floor_div(x, y)
}

/// `p` folded into the cell of size `r` round the origin.
pub open spec fn repeat_spec(p: SpecVec3, r: SpecVec3) -> SpecVec3 {
    SpecVec3 {
        x: fx_sub(fx_fmod(p.x, r.x), fx_mul(32768, r.x)),
        y: fx_sub(fx_fmod(p.y, r.y), fx_mul(32768, r.y)),
        z: fx_sub(fx_fmod(p.z, r.z), fx_mul(32768, r.z)),
    }
}

/// A field of signed distances.
pub trait Sdf: Sync {
    /// The distance of the field at `p`, as a raw count.
    spec fn distance(&self, p: SpecVec3) -> int;

    /// The distance of the field at `p`.
    fn sdf(&self, p: Vec3) -> (d: Scalar)
        ensures
            d@ == self.distance(p@),
    ;
}

/// A sphere with centre `p` and radius `r`.
#[derive(Clone, Copy, Debug, PartialEq, Eq, Structural)]
pub struct Sphere {
    pub p: Vec3,
    pub r: Scalar,
}

impl Sphere {
    /// The radius is not negative.
    pub open spec fn wf(&self) -> bool {
        self.r@ >= 0
    }

    /// The sphere round `(x, y, z)` with the radius `r`.
    pub fn new(x: Scalar, y: Scalar, z: Scalar, r: Scalar) -> (s: Sphere)
        requires
            r@ >= 0,
        ensures
            s.wf(),
            s.p == (Vec3 { x, y, z }),
            s.r == r,
    {
        Sphere { p: Vec3 { x, y, z }, r }
    }
}

impl Sdf for Sphere {
    open spec fn distance(&self, p: SpecVec3) -> int {
        sphere_distance(self.p@, self.r@, p)
    }

    fn sdf(&self, p: Vec3) -> (d: Scalar) {
        self.p.sub(p).magnitude().sub(self.r)
    }
}

/// The plane of all `q` with `q . n + d = 0`.
#[derive(Clone, Copy, Debug, PartialEq, Eq, Structural)]
pub struct Plane {
    pub n: Vec3,
    pub d: Scalar,
}

impl Plane {
    /// The plane with the normal `(x, y, z)` and the offset `d`.
    pub fn new(x: Scalar, y: Scalar, z: Scalar, d: Scalar) -> (s: Plane)
        ensures
            s.n == (Vec3 { x, y, z }),
            s.d == d,
    {
        Plane { n: Vec3 { x, y, z }, d }
    }
}

impl Sdf for Plane {
    open spec fn distance(&self, p: SpecVec3) -> int {
        plane_distance(self.n@, self.d@, p)
    }

    fn sdf(&self, p: Vec3) -> (d: Scalar) {
        p.dot(self.n).add(self.d)
    }
}

/// An axis-aligned box with centre `p` and half-extents `b`.
#[derive(Clone, Copy, Debug, PartialEq, Eq, Structural)]
pub struct Cube {
    pub p: Vec3,
    pub b: Vec3,
}

impl Cube {
    /// No half-extent is negative.
    pub open spec fn wf(&self) -> bool {
        self.b.x@ >= 0 && self.b.y@ >= 0 && self.b.z@ >= 0
    }

    /// The box round `(x, y, z)` with the half-extents `(dx, dy, dz)`.
    pub fn new(x: Scalar, y: Scalar, z: Scalar, dx: Scalar, dy: Scalar, dz: Scalar) -> (s: Cube)
        requires
            dx@ >= 0,
            dy@ >= 0,
            dz@ >= 0,
        ensures
            s.wf(),
            s.p == (Vec3 { x, y, z }),
            s.b == (Vec3 { x: dx, y: dy, z: dz }),
    {
        Cube { p: Vec3 { x, y, z }, b: Vec3 { x: dx, y: dy, z: dz } }
    }
}

/// How far `p` lies beyond the half-extent `b` on one axis.
fn axis_beyond(p: Scalar, c: Scalar, b: Scalar) -> (d: Scalar)
    ensures
        d@ == beyond(p@, c@, b@),
{
    p.sub(c).abs().sub(b).max(Scalar { raw: 0 })
}

impl Sdf for Cube {
    open spec fn distance(&self, p: SpecVec3) -> int {
        cube_distance(self.p@, self.b@, p)
    }

    fn sdf(&self, p: Vec3) -> (d: Scalar) {
        let v: Vec3 = Vec3 {
            x: axis_beyond(p.x, self.p.x, self.b.x),
            y: axis_beyond(p.y, self.p.y, self.b.y),
            z: axis_beyond(p.z, self.p.z, self.b.z),
        };
        v.magnitude()
    }
}

/// The distance from `p` to the sphere of radius `r` round the origin.
pub fn sphere(p: Vec3, r: Scalar) -> (d: Scalar)
    ensures
        d@ == fx_sub(vec_magnitude(p@), r@),
{
    p.magnitude().sub(r)
}

/// The distance from `p` to the box round the origin whose half-extents are 1.
pub fn unit_box(p: Vec3) -> (d: Scalar)
    ensures
        d@ == cube_distance(
            SpecVec3 { x: 0, y: 0, z: 0 },
            SpecVec3 { x: 65536, y: 65536, z: 65536 },
            p@,
        ),
{
    let zero: Scalar = Scalar { raw: 0 };
    let one: Scalar = Scalar { raw: ONE };
    let v: Vec3 = Vec3 {
        x: axis_beyond(p.x, zero, one),
        y: axis_beyond(p.y, zero, one),
        z: axis_beyond(p.z, zero, one),
    };
    v.magnitude()
}

/// The remainder of `x` by `y` that has the sign of `y`: `x - y * floor(x / y)`.
pub fn fmod(x: Scalar, y: Scalar) -> (m: Scalar)
    requires
        y@ != 0,
    ensures
        m@ == fx_fmod(x@, y@),
        y@ > 0 ==> 0 <= m@ < y@ && m@ == x@ % y@,
        y@ < 0 ==> y@ < m@ <= 0 && m@ == -((-x@) % (-y@)),
{
    let a: i128 = x.raw as i128;
    let b: i128 = y.raw as i128;
    if b > 0 {
        let q: i128 = div_floor(a, b);
        proof {
            lemma_fundamental_div_mod(a as int, b as int);
            lemma_mod_bound(a as int, b as int);
            assert(b * q == q * b) by (nonlinear_arith);
        }
        saturate(a - b * q)
    } else {
        let q: i128 = div_floor(-a, -b);
        proof {
            lemma_fundamental_div_mod(-a as int, -b as int);
            lemma_mod_bound(-a as int, -b as int);
            assert(b * q == -((-b) * q)) by (nonlinear_arith);
        }
        saturate(a - b * q)
    }
}

/// `p` folded into the cell of size `r` round the origin, so that one shape
/// repeats in every cell.
pub fn repeat(p: Vec3, r: Vec3) -> (v: Vec3)
    requires
        r.x@ != 0,
        r.y@ != 0,
        r.z@ != 0,
    ensures
        v@ == repeat_spec(p@, r@),
{
    let half: Scalar = Scalar { raw: HALF };
    Vec3 {
        x: fmod(p.x, r.x).sub(half.mul(r.x)),
        y: fmod(p.y, r.y).sub(half.mul(r.y)),
        z: fmod(p.z, r.z).sub(half.mul(r.z)),
    }
}

/// A point at the distance `d` from the centre of a sphere of radius `r` has
/// the signed distance `d - r`: zero on the sphere, positive outside it and
/// negative inside. The distance `d` has to be one that a scalar can hold.
pub proof fn lemma_sphere_distance(s: Sphere, p: Vec3, d: int)
    requires
        s.wf(),
        0 <= d <= 0x7fff_ffff,
        distance_squared(s.p@, p@) == d * d,
    ensures
        s.distance(p@) == d - s.r@,
        d == s.r@ ==> s.distance(p@) == 0,
        d > s.r@ ==> s.distance(p@) > 0,
        d < s.r@ ==> s.distance(p@) < 0,
{
    let dx = s.p.x@ - p.x@;
    let dy = s.p.y@ - p.y@;
    let dz = s.p.z@ - p.z@;
    assert(-d <= dx <= d && -d <= dy <= d && -d <= dz <= d) by (nonlinear_arith)
        requires
            dx * dx + dy * dy + dz * dz == d * d,
            0 <= d,
    ;
    let v = vec_sub(s.p@, p@);
    assert(v == SpecVec3 { x: dx, y: dy, z: dz });
    assert(dot_raw(v, v) == d * d);
    lemma_sqrt_of_square(d);
}

/// Saturation brings a number closer to zero, so its square gets no larger.
proof fn lemma_sat_square(x: int)
    ensures
        sat(x) * sat(x) <= x * x,
{
    let y = sat(x);
    assert(y * y <= x * x) by (nonlinear_arith)
        requires
            (0 <= y <= x) || (x <= y <= 0),
    ;
}

/// The distance of a sphere never overestimates: the distance and the radius
/// together are no more than the true distance to the centre. A ray may
/// advance by the distance without passing through the sphere.
pub proof fn lemma_sphere_never_overestimates(s: Sphere, p: Vec3)
    requires
        s.wf(),
    ensures
        s.distance(p@) + s.r@ >= 0,
        (s.distance(p@) + s.r@) * (s.distance(p@) + s.r@) <= distance_squared(s.p@, p@),
{
    let v = vec_sub(s.p@, p@);
    lemma_sat_square(s.p.x@ - p.x@);
    lemma_sat_square(s.p.y@ - p.y@);
    lemma_sat_square(s.p.z@ - p.z@);
    let n = dot_raw(v, v);
    assert(n <= distance_squared(s.p@, p@));
    lemma_norm_bounds(v);
    lemma_sqrt_exists(n);
    let r = sqrt_floor(n);
    let m = sat(r);
    assert(m * m <= r * r) by (nonlinear_arith)
        requires
            0 <= m <= r,
    ;
    assert(s.distance(p@) == m - s.r@);
}

/// The distance of a box never overestimates: it is no more than the true
/// distance from the point to the box.
pub proof fn lemma_cube_never_overestimates(s: Cube, p: Vec3)
    requires
        s.wf(),
    ensures
        s.distance(p@) >= 0,
        s.distance(p@) * s.distance(p@) <= beyond_exact(p.x@, s.p.x@, s.b.x@) * beyond_exact(
            p.x@,
            s.p.x@,
            s.b.x@,
        ) + beyond_exact(p.y@, s.p.y@, s.b.y@) * beyond_exact(p.y@, s.p.y@, s.b.y@) + beyond_exact(
            p.z@,
            s.p.z@,
            s.b.z@,
        ) * beyond_exact(p.z@, s.p.z@, s.b.z@),
{
    let v = SpecVec3 {
        x: beyond(p.x@, s.p.x@, s.b.x@),
        y: beyond(p.y@, s.p.y@, s.b.y@),
        z: beyond(p.z@, s.p.z@, s.b.z@),
    };
    lemma_beyond(p.x@, s.p.x@, s.b.x@);
    lemma_beyond(p.y@, s.p.y@, s.b.y@);
    lemma_beyond(p.z@, s.p.z@, s.b.z@);
    let n = dot_raw(v, v);
    lemma_norm_bounds(v);
    lemma_sqrt_exists(n);
    let r = sqrt_floor(n);
    let m = sat(r);
    assert(m * m <= r * r) by (nonlinear_arith)
        requires
            0 <= m <= r,
    ;
}

/// What lies beyond a face after saturation is not negative and no more
/// than what lies beyond it in truth.
proof fn lemma_beyond(p: int, c: int, b: int)
    requires
        in_range(p),
        in_range(c),
        0 <= b <= 0x7fff_ffff,
    ensures
        0 <= beyond(p, c, b) <= beyond_exact(p, c, b),
        beyond(p, c, b) * beyond(p, c, b) <= beyond_exact(p, c, b) * beyond_exact(p, c, b),
{
    let x = beyond(p, c, b);
    let y = beyond_exact(p, c, b);
    assert(0 <= x <= y);
    assert(x * x <= y * y) by (nonlinear_arith)
        requires
            0 <= x <= y,
    ;
}

/// A plane whose normal is the unit vector along an axis measures the
/// coordinate of a point on that axis, moved by the offset: exactly, with
/// nothing rounded.
pub proof fn lemma_plane_distance_axis(s: Plane, p: Vec3)
    ensures
        s.distance(p@) == fx_add(vec_dot(p@, s.n@), s.d@),
        s.n@ == (SpecVec3 { x: 65536, y: 0, z: 0 }) ==> s.distance(p@) == sat(p.x@ + s.d@),
        s.n@ == (SpecVec3 { x: 0, y: 65536, z: 0 }) ==> s.distance(p@) == sat(p.y@ + s.d@),
        s.n@ == (SpecVec3 { x: 0, y: 0, z: 65536 }) ==> s.distance(p@) == sat(p.z@ + s.d@),
{
    let (x, y, z) = (p.x@, p.y@, p.z@);
    assert(x * 65536 + y * 0 + z * 0 == x * 65536 && x * 0 + y * 65536 + z * 0 == y * 65536 && x * 0
        + y * 0 + z * 65536 == z * 65536) by (nonlinear_arith);
}

/// A point that lies `delta >= 0` beyond the face of a box along the x axis,
/// level with its centre, has the distance `delta`. The offset from the
/// centre has to be one that a scalar can hold.
pub proof fn lemma_cube_distance_x(s: Cube, p: Vec3, delta: int)
    requires
        s.wf(),
        delta >= 0,
        s.b.x@ + delta <= 0x7fff_ffff,
        p.x@ == s.p.x@ + s.b.x@ + delta,
        p.y@ == s.p.y@,
        p.z@ == s.p.z@,
    ensures
        s.distance(p@) == delta,
{
    let v = SpecVec3 {
        x: beyond(p.x@, s.p.x@, s.b.x@),
        y: beyond(p.y@, s.p.y@, s.b.y@),
        z: beyond(p.z@, s.p.z@, s.b.z@),
    };
    assert(v == SpecVec3 { x: delta, y: 0, z: 0 });
    assert(dot_raw(v, v) == delta * delta) by (nonlinear_arith)
        requires
            dot_raw(v, v) == delta * delta + 0 * 0 + 0 * 0,
    ;
    lemma_sqrt_of_square(delta);
}

/// Inside a box and on its faces the distance is zero. The offsets from the
/// centre have to be ones that a scalar can hold.
pub proof fn lemma_cube_distance_inside(s: Cube, p: Vec3)
    requires
        s.wf(),
        -s.b.x@ <= p.x@ - s.p.x@ <= s.b.x@,
        -s.b.y@ <= p.y@ - s.p.y@ <= s.b.y@,
        -s.b.z@ <= p.z@ - s.p.z@ <= s.b.z@,
    ensures
        s.distance(p@) == 0,
{
    let v = SpecVec3 {
        x: beyond(p.x@, s.p.x@, s.b.x@),
        y: beyond(p.y@, s.p.y@, s.b.y@),
        z: beyond(p.z@, s.p.z@, s.b.z@),
    };
    assert(v == SpecVec3 { x: 0, y: 0, z: 0 });
    assert(dot_raw(v, v) == 0 * 0) by (nonlinear_arith)
        requires
            dot_raw(v, v) == 0 * 0 + 0 * 0 + 0 * 0,
    ;
    lemma_sqrt_of_square(0);
}

/// Outside a box the distance is positive, for a box whose half-extents are
/// below the largest scalar.
pub proof fn lemma_cube_distance_outside(s: Cube, p: Vec3)
    requires
        s.wf(),
        s.b.x@ < 0x7fff_ffff && s.b.y@ < 0x7fff_ffff && s.b.z@ < 0x7fff_ffff,
        beyond_exact(p.x@, s.p.x@, s.b.x@) > 0 || beyond_exact(p.y@, s.p.y@, s.b.y@) > 0
            || beyond_exact(p.z@, s.p.z@, s.b.z@) > 0,
    ensures
        s.distance(p@) > 0,
{
    let v = SpecVec3 {
        x: beyond(p.x@, s.p.x@, s.b.x@),
        y: beyond(p.y@, s.p.y@, s.b.y@),
        z: beyond(p.z@, s.p.z@, s.b.z@),
    };
    assert(v.x > 0 || v.y > 0 || v.z > 0);
    crate::vector::lemma_magnitude_zero(v);
}

} // verus!
