//! Rays, the scene, and the sphere tracer.
//!
//! A ray is marched through a field of signed distances: at every step the
//! field is sampled at the ray's origin, and the origin then advances along
//! the direction by the distance found, which cannot pass through a surface.
//! The march ends with a hit where the distance falls below the lower
//! threshold, with a miss where the distance travelled exceeds the upper
//! one, and fails where neither happens within the iteration budget.

use crate::blend::{blend_all, scene_sdf};
use crate::scalar::{fx_add, fx_clamp, fx_div, fx_sub, in_range, ONE, Scalar};
use crate::sdf::{Cube, cube_distance, Plane, plane_distance, Sdf, Sphere, sphere_distance};
use crate::vector::{
    lemma_magnitude_zero, nearly_unit, SpecVec3, Vec3, vec_add, vec_direction, vec_magnitude,
    vec_normalize, vec_scale,
};
use vstd::prelude::*;

verus! {

/// The number of steps after which a march is given up.
pub const TRACE_ITER_MAX: usize = 1024;

/// The raw count of the step to either side of a point over which the
/// normal is estimated: 0.005.
pub const NORMAL_EPSILON: i32 = 327;

/// A ray: where it starts and where it goes. The direction is of length 1
/// by convention.
#[derive(Clone, Copy, Debug, PartialEq, Eq, Structural)]
pub struct Ray {
    pub origin: Vec3,
    pub direction: Vec3,
}

/// The camera: where it stands and what it looks at, the ratio of the
/// width of its image to the height, and its field of view in degrees.
#[derive(Clone, Copy, Debug, PartialEq, Eq, Structural)]
pub struct Camera {
    pub origin: Vec3,
    pub target: Vec3,
    pub aspect_ratio: Scalar,
    pub fov: Scalar,
}

/// A camera and the objects it looks at, in the order in which they are
/// blended.
pub struct Scene {
    pub camera: Camera,
    pub objects: Vec<Object>,
}

/// A primitive: a plane by its normal and offset, a sphere by its centre and
/// radius, or an axis-aligned box by its centre and half-extents.
#[derive(Clone, Copy, Debug, PartialEq, Eq, Structural)]
pub enum Object {
    Plane(Vec3, Scalar),
    Sphere(Vec3, Scalar),
    Cube(Vec3, Vec3),
}

/// How a march ended: with a hit, at the point and with the surface normal
/// that the ray holds, and a quality between 0 and 1; with a miss, and the
/// distance sampled last; or with neither.
///
/// The quality of a hit is `1 - total / max` for the distance `total`
/// travelled and the upper threshold `max`, held between 0 and 1: it is 1
/// where the march starts at a negative distance, inside a solid, and 0
/// where the last sample lifts the distance travelled above the threshold.
#[derive(Clone, Copy, Debug, PartialEq, Eq, Structural)]
pub enum TraceResult {
    Hit(Ray, Scalar),
    Miss(Scalar),
    Fail,
}

/// How a march ends, as the marcher's contract sees it.
pub enum Outcome {
    /// The distance at `at` was below the lower threshold; `total` is the
    /// distance travelled, that last distance included.
    Hit { at: SpecVec3, total: int },
    /// The distance travelled exceeded the upper threshold at `at`, where
    /// the distance `last` was sampled.
    Miss { at: SpecVec3, last: int },
    /// The budget ran out at `at`.
    Exhausted { at: SpecVec3 },
}

impl Object {
    /// No radius and no half-extent is negative.
    pub open spec fn wf(&self) -> bool {
        match *self {
            Object::Plane(n, d) => true,
            Object::Sphere(c, r) => r@ >= 0,
            Object::Cube(c, b) => b.x@ >= 0 && b.y@ >= 0 && b.z@ >= 0,
        }
    }

    /// The distance of an object is one that a scalar can hold.
    pub proof fn lemma_distance_in_range(&self, p: SpecVec3)
        ensures
            in_range(self.distance(p)),
    {
    }
}

impl Sdf for Object {
    open spec fn distance(&self, p: SpecVec3) -> int {
        match *self {
            Object::Plane(n, d) => plane_distance(n@, d@, p),
            Object::Sphere(c, r) => sphere_distance(c@, r@, p),
            Object::Cube(c, b) => cube_distance(c@, b@, p),
        }
    }

    fn sdf(&self, p: Vec3) -> (d: Scalar) {
        match *self {
            Object::Plane(n, d) => (Plane { n, d }).sdf(p),
            Object::Sphere(c, r) => (Sphere { p: c, r }).sdf(p),
            Object::Cube(c, b) => (Cube { p: c, b }).sdf(p),
        }
    }
}

impl Scene {
    /// Every object of the scene is well formed.
    pub open spec fn wf(&self) -> bool {
        forall|i: int| 0 <= i < self.objects@.len() ==> (#[trigger] self.objects@[i]).wf()
    }
}

impl Sdf for Scene {
    open spec fn distance(&self, p: SpecVec3) -> int {
        blend_all(self.objects@, p)
    }

    fn sdf(&self, p: Vec3) -> (d: Scalar) {
        scene_sdf(self, p)
    }
}

impl Ray {
    /// Moves the origin along the direction by `amount`.
    pub fn translate(&mut self, amount: Scalar)
        ensures
            final(self).origin@ == vec_add(old(self).origin@, vec_scale(old(self).direction@, amount@)),
            final(self).direction == old(self).direction,
    {
        self.origin = self.origin.add(self.direction.scale(amount));
    }
}

impl Camera {
    /// The ray from the camera through the point `(x, y)` of the image
    /// plane, which lies at the distance 1 before it.
    pub fn get_ray(&self, x: Scalar, y: Scalar) -> (ray: Ray)
        ensures
            ray.origin == self.origin,
            ray.direction@ == vec_normalize(SpecVec3 { x: x@, y: y@, z: 65536 }),
            vec_magnitude(SpecVec3 { x: x@, y: y@, z: 65536 }) < i32::MAX ==> nearly_unit(
                ray.direction@,
                vec_magnitude(SpecVec3 { x: x@, y: y@, z: 65536 }),
            ),
    {
        let v: Vec3 = Vec3 { x, y, z: Scalar { raw: ONE } };
        proof {
            lemma_magnitude_zero(v@);
        }
        Ray { origin: self.origin, direction: v.normalize() }
    }
}

/// The differences of the field over a step of `eps` to either side of `p`,
/// axis by axis.
pub open spec fn gradient<S: Sdf>(field: &S, p: SpecVec3, eps: int) -> SpecVec3 {
    SpecVec3 {
        x: fx_sub(
            field.distance(SpecVec3 { x: fx_add(p.x, eps), y: p.y, z: p.z }),
            field.distance(SpecVec3 { x: fx_sub(p.x, eps), y: p.y, z: p.z }),
        ),
        y: fx_sub(
            field.distance(SpecVec3 { x: p.x, y: fx_add(p.y, eps), z: p.z }),
            field.distance(SpecVec3 { x: p.x, y: fx_sub(p.y, eps), z: p.z }),
        ),
        z: fx_sub(
            field.distance(SpecVec3 { x: p.x, y: p.y, z: fx_add(p.z, eps) }),
            field.distance(SpecVec3 { x: p.x, y: p.y, z: fx_sub(p.z, eps) }),
        ),
    }
}

/// The gradient scaled to length 1; the zero vector where the gradient
/// vanishes and no direction is left.
pub open spec fn normal_spec<S: Sdf>(field: &S, p: SpecVec3, eps: int) -> SpecVec3 {
    vec_direction(gradient(field, p, eps))
}

/// A field that lies above another by one amount everywhere has the same
/// differences, and so the same normals: the normal is a matter of the
/// slope of the field, not of its height.
pub proof fn lemma_normal_unchanged_by_shift<S: Sdf, T: Sdf>(
    field: &S,
    shifted: &T,
    amount: int,
    p: SpecVec3,
    eps: int,
)
    requires
        forall|q: SpecVec3| #[trigger] shifted.distance(q) == field.distance(q) + amount,
    ensures
        gradient(shifted, p, eps) == gradient(field, p, eps),
        normal_spec(shifted, p, eps) == normal_spec(field, p, eps),
{
}

/// The quality of a hit after the distance `total`: `1 - total / max`, held
/// between 0 and 1.
pub open spec fn quality(total: int, max: int) -> int {
    fx_clamp(fx_sub(65536, fx_div(total, max)), 0, 65536)
}

/// After a distance between nothing and the upper threshold the quality is
/// `1 - total / max` itself: that lies between 0 and 1 already, at 1 where
/// nothing was travelled and at 0 where the whole threshold was.
pub proof fn lemma_quality_in_range(total: int, max: int)
    requires
        0 <= total <= max,
        0 < max <= 0x7fff_ffff,
    ensures
        quality(total, max) == fx_sub(65536, fx_div(total, max)),
        total == 0 ==> quality(total, max) == 65536,
        total == max ==> quality(total, max) == 0,
{
    assert(0 <= total * 65536 <= max * 65536) by (nonlinear_arith)
        requires
            0 <= total <= max,
    ;
    vstd::arithmetic::div_mod::lemma_div_pos_is_pos(total * 65536, max);
    vstd::arithmetic::div_mod::lemma_div_is_ordered(total * 65536, max * 65536, max);
    vstd::arithmetic::div_mod::lemma_div_multiples_vanish(65536, max);
    if total == 0 {
        assert(0int / max == 0) by (nonlinear_arith)
            requires
                max > 0,
        ;
    }
}

/// The quality does not grow with the distance travelled, for an upper
/// threshold above zero.
pub proof fn lemma_quality_falls(total: int, total2: int, max: int)
    requires
        total <= total2,
        max > 0,
    ensures
        quality(total, max) >= quality(total2, max),
{
    assert(total * 65536 <= total2 * 65536);
    vstd::arithmetic::div_mod::lemma_div_is_ordered(total * 65536, total2 * 65536, max);
}

/// The march of a ray from `origin` along `dir` that has travelled `total`
/// and has `budget` steps left.
pub open spec fn march<S: Sdf>(
    field: &S,
    origin: SpecVec3,
    dir: SpecVec3,
    total: int,
    min: int,
    max: int,
    budget: nat,
) -> Outcome
    decreases budget,
{
    if budget == 0 {
        Outcome::Exhausted { at: origin }
    } else {
        let d = field.distance(origin);
        let travelled = fx_add(total, d);
        if d < min {
            Outcome::Hit { at: origin, total: travelled }
        } else if travelled > max {
            Outcome::Miss { at: origin, last: d }
        } else {
            march(
                field,
                vec_add(origin, vec_scale(dir, d)),
                dir,
                travelled,
                min,
                max,
                (budget - 1) as nat,
            )
        }
    }
}

/// `result` and the ray's last origin `end` are what the outcome `o` of a
/// march through `field` asks for.
pub open spec fn reports<S: Sdf>(
    result: TraceResult,
    end: SpecVec3,
    o: Outcome,
    field: &S,
    max: int,
) -> bool {
    match o {
        Outcome::Hit { at, total } => {
            &&& end == at
            &&& result matches TraceResult::Hit(hit, q)
            &&& hit.origin@ == at
            &&& hit.direction@ == normal_spec(field, at, NORMAL_EPSILON as int)
            &&& q@ == quality(total, max)
            &&& 0 <= q@ <= 65536
        },
        Outcome::Miss { at, last } => {
            &&& end == at
            &&& result matches TraceResult::Miss(d)
            &&& d@ == last
        },
        Outcome::Exhausted { at } => {
            &&& end == at
            &&& result is Fail
        },
    }
}

/// Marches `ray` through the field `sdf` and says how the march ended. The
/// ray is left where the march ended.
pub fn trace<S: Sdf>(sdf: &S, ray: &mut Ray, min: Scalar, max: Scalar) -> (result: TraceResult)
    requires
        min@ < max@,
        max@ != 0,
    ensures
        reports(
            result,
            final(ray).origin@,
            march(
                sdf,
                old(ray).origin@,
                old(ray).direction@,
                0,
                min@,
                max@,
                TRACE_ITER_MAX as nat,
            ),
            sdf,
            max@,
        ),
        final(ray).direction == old(ray).direction,
        // A ray that starts within the lower threshold of the surface hits
        // at once, where it stands.
        sdf.distance(old(ray).origin@) < min@ ==> result is Hit && result->Hit_0.origin == old(
            ray,
        ).origin && final(ray).origin == old(ray).origin,
        // Outside the surface the quality of that hit is what is left of the
        // upper threshold.
        0 <= sdf.distance(old(ray).origin@) < min@ ==> result is Hit && result->Hit_1@ == fx_sub(
            65536,
            fx_div(sdf.distance(old(ray).origin@), max@),
        ),
        // The quality of every hit lies between 0 and 1.
        result is Hit ==> 0 <= result->Hit_1@ <= 65536,
        // A ray that starts farther from every surface than the upper
        // threshold misses at once.
        sdf.distance(old(ray).origin@) > max@ ==> result is Miss && result->Miss_0@
            == sdf.distance(old(ray).origin@) && final(ray).origin == old(ray).origin,
        // Every step that is neither a hit nor a miss is at least as long
        // as the lower threshold: where that many steps of that length
        // pass the upper threshold, the march cannot fail.
        min@ > 0 && max@ < i32::MAX && TRACE_ITER_MAX * min@ > max@ ==> !(result is Fail),
{
    let mut iterations: usize = TRACE_ITER_MAX;
    let mut total_distance: Scalar = Scalar { raw: 0 };
    let ghost whole = march(
        sdf,
        old(ray).origin@,
        old(ray).direction@,
        0,
        min@,
        max@,
        TRACE_ITER_MAX as nat,
    );
    // What the steps taken so far have at least added up to.
    let ghost least: int = 0;

    while iterations > 0
        invariant
            iterations <= TRACE_ITER_MAX,
            least == (TRACE_ITER_MAX - iterations) * min@,
            min@ > 0 && max@ < i32::MAX ==> least <= total_distance@ <= max@,
            max@ != 0,
            min@ < max@,
            ray.direction == old(ray).direction,
            march(
                sdf,
                ray.origin@,
                ray.direction@,
                total_distance@,
                min@,
                max@,
                iterations as nat,
            ) == whole,
            whole == march(
                sdf,
                old(ray).origin@,
                old(ray).direction@,
                0,
                min@,
                max@,
                TRACE_ITER_MAX as nat,
            ),
            iterations < TRACE_ITER_MAX ==> min@ <= sdf.distance(old(ray).origin@) <= max@,
            iterations == TRACE_ITER_MAX ==> ray.origin == old(ray).origin && total_distance@ == 0,
        decreases iterations,
    {
        let distance: Scalar = sdf.sdf(ray.origin);
        total_distance = total_distance.add(distance);

        if distance.raw < min.raw {
            proof {
                if 0 <= total_distance@ <= max@ {
                    lemma_quality_in_range(total_distance@, max@);
                }
            }
            let normal: Vec3 = estimate_normal(sdf, ray.origin, Scalar { raw: NORMAL_EPSILON });
            return TraceResult::Hit(
                Ray { origin: ray.origin, direction: normal },
                Scalar { raw: ONE }.sub(total_distance.div(max)).clamp(
                    Scalar { raw: 0 },
                    Scalar { raw: ONE },
                ),
            );
        }
        if total_distance.raw > max.raw {
            return TraceResult::Miss(distance);
        }
        ray.translate(distance);

        proof {
            assert((TRACE_ITER_MAX - (iterations - 1)) * min@ == (TRACE_ITER_MAX - iterations)
                * min@ + min@) by (nonlinear_arith);
            least = least + min@;
        }
        iterations -= 1;
    }

    TraceResult::Fail
}

/// The surface normal of the field `scene` at `position`, by central
/// differences over a step of `epsilon` along each axis.
pub fn estimate_normal<S: Sdf>(scene: &S, position: Vec3, epsilon: Scalar) -> (n: Vec3)
    ensures
        n@ == normal_spec(scene, position@, epsilon@),
        // Where the field has a slope, the normal has the length 1.
        ({
            let m = vec_magnitude(gradient(scene, position@, epsilon@));
            0 < m < i32::MAX ==> nearly_unit(n@, m)
        }),
{
    let x1: Scalar = scene.sdf(Vec3 { x: position.x.add(epsilon), y: position.y, z: position.z });
    let x0: Scalar = scene.sdf(Vec3 { x: position.x.sub(epsilon), y: position.y, z: position.z });
    let y1: Scalar = scene.sdf(Vec3 { x: position.x, y: position.y.add(epsilon), z: position.z });
    let y0: Scalar = scene.sdf(Vec3 { x: position.x, y: position.y.sub(epsilon), z: position.z });
    let z1: Scalar = scene.sdf(Vec3 { x: position.x, y: position.y, z: position.z.add(epsilon) });
    let z0: Scalar = scene.sdf(Vec3 { x: position.x, y: position.y, z: position.z.sub(epsilon) });

    let n: Vec3 = Vec3 { x: x1.sub(x0), y: y1.sub(y0), z: z1.sub(z0) };

    n.normalize_or_zero()
}

} // verus!
