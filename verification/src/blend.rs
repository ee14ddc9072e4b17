//! The smooth minimum, and the scene as the smooth union of its primitives.

use crate::raytracer::{Object, Scene};
use crate::scalar::{
    fx_abs, fx_div, fx_max, fx_min, fx_mul, fx_sub, in_range, lemma_mul_monotone, lemma_mul_nonnegative, ONE,
    QUARTER, Scalar,
};
use crate::sdf::{
    beyond_exact, Cube, cube_distance, distance_squared, lemma_cube_never_overestimates,
    lemma_sphere_never_overestimates, Sdf, Sphere, sphere_distance,
};
use crate::vector::{SpecVec3, Vec3};
use vstd::prelude::*;

verus! {

/// The share of the blend radius `k` that `a` and `b` are closer to each
/// other than: between 0 and 1, and 0 where they are `k` or more apart.
pub open spec fn blend_share(a: int, b: int, k: int) -> int {
    fx_div(fx_max(fx_sub(k, fx_abs(fx_sub(a, b))), 0), k)
}

/// What the smooth minimum takes off the minimum: `h * h * k / 4` for the
/// share `h`.
pub open spec fn blend_drop(a: int, b: int, k: int) -> int {
    let h = blend_share(a, b, k);
    fx_mul(fx_mul(fx_mul(h, h), k), 16384)
}

/// The smooth minimum of `a` and `b` for the blend radius `k > 0`.
pub open spec fn smin_spec(a: int, b: int, k: int) -> int {
    fx_sub(fx_min(a, b), blend_drop(a, b, k))
}

/// The smooth union of the distances of `objects` at `p` with the blend
/// radius 1: the distance of the first object, blended with that of the
/// second, the result with that of the third, and so on to the last. One
/// object alone has its own distance; where there is no object, the scene
/// is as far away as a scalar can say.
///
/// The order of the objects matters where three or more of them are near
/// each other: the smooth minimum of two values does not depend on their
/// order, but it is not associative.
pub open spec fn blend_all(objects: Seq<Object>, p: SpecVec3) -> int
    decreases objects.len(),
{
    if objects.len() == 0 {
        0x7fff_ffff
    } else if objects.len() == 1 {
        objects[0].distance(p)
    } else {
        smin_spec(blend_all(objects.drop_last(), p), objects.last().distance(p), 65536)
    }
}

/// The share lies between 0 and 1, and is 0 where `a` and `b` are `k` or
/// more apart.
pub proof fn lemma_blend_share(a: int, b: int, k: int)
    requires
        in_range(a),
        in_range(b),
        in_range(k),
        k > 0,
    ensures
        0 <= blend_share(a, b, k) <= 65536,
        a - b >= k || b - a >= k ==> blend_share(a, b, k) == 0,
{
    let x = fx_max(fx_sub(k, fx_abs(fx_sub(a, b))), 0);
    assert(0 <= x <= k);
    assert(0 <= x * 65536 <= k * 65536) by (nonlinear_arith)
        requires
            0 <= x <= k,
    ;
    vstd::arithmetic::div_mod::lemma_div_pos_is_pos(x * 65536, k);
    vstd::arithmetic::div_mod::lemma_div_is_ordered(x * 65536, k * 65536, k);
    vstd::arithmetic::div_mod::lemma_div_multiples_vanish(65536, k);
    if a - b >= k || b - a >= k {
        assert(x == 0);
        assert(0int / k == 0) by (nonlinear_arith)
            requires
                k > 0,
        ;
    }
}

/// The smooth minimum is never above the minimum, and is the minimum where
/// `a` and `b` are `k` or more apart.
pub proof fn lemma_smin(a: int, b: int, k: int)
    requires
        in_range(a),
        in_range(b),
        in_range(k),
        k > 0,
    ensures
        smin_spec(a, b, k) <= fx_min(a, b),
        in_range(smin_spec(a, b, k)),
        a - b >= k || b - a >= k ==> smin_spec(a, b, k) == fx_min(a, b),
{
    lemma_blend_share(a, b, k);
    let h = blend_share(a, b, k);
    lemma_mul_nonnegative(h, h);
    lemma_mul_nonnegative(fx_mul(h, h), k);
    lemma_mul_nonnegative(fx_mul(fx_mul(h, h), k), 16384);
}

/// The smooth minimum is never more than a quarter of the blend radius below
/// the minimum, and is that far below it where `a` and `b` are equal.
pub proof fn lemma_smin_lower_bound(a: int, b: int, k: int)
    requires
        in_range(a),
        in_range(b),
        in_range(k),
        k > 0,
    ensures
        0 <= blend_drop(a, b, k) <= fx_mul(k, 16384),
        smin_spec(a, b, k) >= fx_sub(fx_min(a, b), fx_mul(k, 16384)),
        a == b ==> smin_spec(a, b, k) == fx_sub(a, fx_mul(k, 16384)),
{
    lemma_blend_share(a, b, k);
    let h = blend_share(a, b, k);
    lemma_mul_nonnegative(h, h);
    lemma_mul_monotone(h, 65536, h);
    let hh = fx_mul(h, h);
    assert(hh <= h);
    lemma_mul_nonnegative(hh, k);
    lemma_mul_monotone(hh, 65536, k);
    let hhk = fx_mul(hh, k);
    assert(hhk <= k);
    lemma_mul_nonnegative(hhk, 16384);
    lemma_mul_monotone(hhk, k, 16384);
    if a == b {
        vstd::arithmetic::div_mod::lemma_div_multiples_vanish(65536, k);
        assert(h == 65536);
    }
}

/// The drop of the smooth minimum at the blend radius 1 is the square of
/// what `a` and `b` are closer than 1, over 4, rounded down.
proof fn lemma_drop_at_one(a: int, b: int)
    requires
        in_range(a),
        in_range(b),
    ensures
        ({
            let x = blend_share(a, b, 65536);
            let g = blend_drop(a, b, 65536);
            &&& 0 <= x <= 65536
            &&& x == fx_max(fx_sub(65536, fx_abs(fx_sub(a, b))), 0)
            &&& 262144 * g <= x * x < 262144 * (g + 1)
        }),
{
    let x = fx_max(fx_sub(65536, fx_abs(fx_sub(a, b))), 0);
    assert(0 <= x <= 65536);
    assert(fx_div(x, 65536) == x);
    let t = x * x;
    assert(0 <= t <= 65536 * 65536) by (nonlinear_arith)
        requires
            0 <= x <= 65536,
            t == x * x,
    ;
    let y = fx_mul(x, x);
    assert(y == t / 65536);
    assert(65536 * y <= t < 65536 * y + 65536);
    assert(fx_mul(y, 65536) == y);
    let g = fx_mul(y, 16384);
    assert(g == (y * 16384) / 65536);
    assert(4 * g <= y < 4 * g + 4);
    assert(blend_share(a, b, 65536) == x);
    assert(blend_drop(a, b, 65536) == g);
    assert(262144 * g <= t < 262144 * (g + 1));
}

/// At the blend radius 1 the smooth minimum takes the full quarter off the
/// minimum only where `a` and `b` are equal.
pub proof fn lemma_full_drop_only_for_equal(a: int, b: int)
    requires
        in_range(a),
        in_range(b),
        a != b,
    ensures
        blend_drop(a, b, 65536) < 16384,
{
    lemma_drop_at_one(a, b);
    let x = blend_share(a, b, 65536);
    assert(x <= 65535);
    assert(x * x <= 65535 * 65535) by (nonlinear_arith)
        requires
            0 <= x <= 65535,
    ;
}

/// Two drops at the blend radius 1 differ by no more than what they are
/// drops of.
proof fn lemma_drop_steps(x: int, g: int, x2: int, g2: int)
    requires
        0 <= x <= x2 <= 65536,
        262144 * g <= x * x < 262144 * (g + 1),
        262144 * g2 <= x2 * x2 < 262144 * (g2 + 1),
    ensures
        g <= g2 <= g + (x2 - x),
{
    assert(g <= g2) by (nonlinear_arith)
        requires
            0 <= x <= x2,
            262144 * g <= x * x,
            x2 * x2 < 262144 * (g2 + 1),
    {
        assert(x * x <= x2 * x2);
    }
    let step = x2 - x;
    assert(x2 * x2 - x * x <= 131072 * step) by (nonlinear_arith)
        requires
            0 <= x <= x2 <= 65536,
            step == x2 - x,
    {
        assert(x2 * x2 - x * x == step * (x + x2));
        assert(step * (x + x2) <= step * 131072);
    }
    assert(262144 * (g2 - g - 1) < 131072 * step);
    assert(2 * (g2 - g - 1) < step);
}

/// At the blend radius 1 the smooth minimum grows with each of its
/// arguments: a field that moves away from an object does not come nearer by
/// the blend.
pub proof fn lemma_smin_monotone(a: int, b: int, a2: int, b2: int)
    requires
        in_range(a),
        in_range(b),
        in_range(a2),
        in_range(b2),
        a <= a2,
        b <= b2,
    ensures
        smin_spec(a, b, 65536) <= smin_spec(a2, b2, 65536),
{
    lemma_smin_grows_with_first(a, a2, b);
    lemma_smin_commutes(a2, b, 65536);
    lemma_smin_grows_with_first(b, b2, a2);
    lemma_smin_commutes(b2, a2, 65536);
}

/// At the blend radius 1 the smooth minimum grows with its first argument.
proof fn lemma_smin_grows_with_first(a: int, a2: int, b: int)
    requires
        in_range(a),
        in_range(a2),
        in_range(b),
        a <= a2,
    ensures
        smin_spec(a, b, 65536) <= smin_spec(a2, b, 65536),
{
    if a <= b <= a2 {
        lemma_smin_grows_on_one_side(a, b, b);
        lemma_smin_grows_on_one_side(b, a2, b);
    } else {
        lemma_smin_grows_on_one_side(a, a2, b);
    }
}

/// The same, for two first arguments that lie on one side of the second.
proof fn lemma_smin_grows_on_one_side(a: int, a2: int, b: int)
    requires
        in_range(a),
        in_range(a2),
        in_range(b),
        a <= a2,
        a2 <= b || b <= a,
    ensures
        smin_spec(a, b, 65536) <= smin_spec(a2, b, 65536),
{
    lemma_drop_at_one(a, b);
    lemma_drop_at_one(a2, b);
    let x = blend_share(a, b, 65536);
    let x2 = blend_share(a2, b, 65536);
    let g = blend_drop(a, b, 65536);
    let g2 = blend_drop(a2, b, 65536);
    if b <= a {
        // Beyond `b` the two move apart, and the drop shrinks.
        assert(x2 <= x);
        lemma_drop_steps(x2, g2, x, g);
    } else {
        // Below `b` the two come together, and the drop grows, but by no
        // more than the argument does.
        assert(x <= x2 <= x + (a2 - a));
        lemma_drop_steps(x, g, x2, g2);
    }
}

/// The smooth minimum does not depend on the order of `a` and `b`.
pub proof fn lemma_smin_commutes(a: int, b: int, k: int)
    requires
        in_range(a),
        in_range(b),
    ensures
        smin_spec(a, b, k) == smin_spec(b, a, k),
{
    assert(fx_abs(fx_sub(a, b)) == fx_abs(fx_sub(b, a)));
}

/// The smooth minimum of `a` and `b` for the blend radius `k`:
/// `min(a, b) - h * h * k / 4` with `h = max(k - |a - b|, 0) / k`.
pub fn smin(a: Scalar, b: Scalar, k: Scalar) -> (r: Scalar)
    requires
        k@ > 0,
    ensures
        r@ == smin_spec(a@, b@, k@),
        r@ <= fx_min(a@, b@),
        a@ - b@ >= k@ || b@ - a@ >= k@ ==> r@ == fx_min(a@, b@),
        r@ >= fx_sub(fx_min(a@, b@), fx_mul(k@, 16384)),
        a@ == b@ ==> r@ == fx_sub(a@, fx_mul(k@, 16384)),
{
    proof {
        lemma_smin(a@, b@, k@);
        lemma_smin_lower_bound(a@, b@, k@);
    }
    let h: Scalar = k.sub(a.sub(b).abs()).max(Scalar { raw: 0 }).div(k);
    a.min(b).sub(h.mul(h).mul(k).mul(Scalar { raw: QUARTER }))
}

/// The distance from `position` to the blended surface of the scene.
pub fn scene_sdf(scene_def: &Scene, position: Vec3) -> (d: Scalar)
    ensures
        d@ == blend_all(scene_def.objects@, position@),
        scene_def.objects@.len() == 0 ==> d@ == i32::MAX,
        scene_def.objects@.len() == 1 ==> d@ == scene_def.objects@[0].distance(position@),
        scene_def.objects@.len() == 2 ==> d@ == smin_spec(
            scene_def.objects@[0].distance(position@),
            scene_def.objects@[1].distance(position@),
            65536,
        ),
{
    if scene_def.objects.len() == 0 {
        return Scalar { raw: i32::MAX };
    }
    let mut min_s: Scalar = scene_def.objects[0].sdf(position);
    let mut i: usize = 1;
    proof {
        assert(scene_def.objects@.take(1)[0] == scene_def.objects@[0]);
    }
    while i < scene_def.objects.len()
        invariant
            1 <= i <= scene_def.objects.len(),
            min_s@ == blend_all(scene_def.objects@.take(i as int), position@),
        decreases scene_def.objects.len() - i,
    {
        let d: Scalar = scene_def.objects[i].sdf(position);
        proof {
            let next = scene_def.objects@.take(i + 1);
            assert(next.drop_last() == scene_def.objects@.take(i as int));
            assert(next.last() == scene_def.objects@[i as int]);
        }
        min_s = smin(min_s, d, Scalar { raw: ONE });
        i = i + 1;
    }
    proof {
        assert(scene_def.objects@.take(i as int) == scene_def.objects@);
        if scene_def.objects@.len() == 2 {
            let first = scene_def.objects@.drop_last();
            assert(first[0] == scene_def.objects@[0]);
            assert(blend_all(first, position@) == scene_def.objects@[0].distance(position@));
        }
    }
    min_s
}

/// The distance of the scene is never above the distance of any of its
/// objects: blending only ever takes away.
pub proof fn lemma_scene_below_each(objects: Seq<Object>, p: SpecVec3, i: int)
    requires
        0 <= i < objects.len(),
    ensures
        blend_all(objects, p) <= objects[i].distance(p),
        in_range(blend_all(objects, p)),
    decreases objects.len(),
{
    let rest = objects.drop_last();
    objects.last().lemma_distance_in_range(p);
    if objects.len() > 1 {
        lemma_scene_in_range(rest, p);
        lemma_smin(blend_all(rest, p), objects.last().distance(p), 65536);
        if i < objects.len() - 1 {
            lemma_scene_below_each(rest, p, i);
        }
    }
}

/// Marching through a scene is safe for its spheres: the distance of the
/// scene at `p` and the radius of a sphere of the scene are together no more
/// than the true distance from `p` to the centre of that sphere, so a step
/// of that distance does not pass through it.
pub proof fn lemma_scene_clears_sphere(scene: &Scene, p: Vec3, i: int)
    requires
        scene.wf(),
        0 <= i < scene.objects@.len(),
        scene.objects@[i] is Sphere,
    ensures
        ({
            let reach = scene.distance(p@) + scene.objects@[i]->Sphere_1@;
            reach <= 0 || reach * reach <= distance_squared(scene.objects@[i]->Sphere_0@, p@)
        }),
{
    let c = scene.objects@[i]->Sphere_0;
    let r = scene.objects@[i]->Sphere_1;
    assert(scene.objects@[i].wf());
    lemma_scene_below_each(scene.objects@, p@, i);
    lemma_sphere_never_overestimates(Sphere { p: c, r }, p);
    let reach = scene.distance(p@) + r@;
    let m = sphere_distance(c@, r@, p@) + r@;
    if reach > 0 {
        assert(reach * reach <= m * m) by (nonlinear_arith)
            requires
                0 < reach <= m,
        ;
    }
}

/// Marching through a scene is safe for its boxes: the distance of the
/// scene at `p` is no more than the true distance from `p` to any box of
/// the scene.
pub proof fn lemma_scene_clears_cube(scene: &Scene, p: Vec3, i: int)
    requires
        scene.wf(),
        0 <= i < scene.objects@.len(),
        scene.objects@[i] is Cube,
    ensures
        ({
            let c = scene.objects@[i]->Cube_0;
            let b = scene.objects@[i]->Cube_1;
            let d = scene.distance(p@);
            d <= 0 || d * d <= beyond_exact(p.x@, c.x@, b.x@) * beyond_exact(p.x@, c.x@, b.x@)
                + beyond_exact(p.y@, c.y@, b.y@) * beyond_exact(p.y@, c.y@, b.y@) + beyond_exact(
                p.z@,
                c.z@,
                b.z@,
            ) * beyond_exact(p.z@, c.z@, b.z@)
        }),
{
    let c = scene.objects@[i]->Cube_0;
    let b = scene.objects@[i]->Cube_1;
    assert(scene.objects@[i].wf());
    lemma_scene_below_each(scene.objects@, p@, i);
    lemma_cube_never_overestimates(Cube { p: c, b }, p);
    let d = scene.distance(p@);
    let m = cube_distance(c@, b@, p@);
    if d > 0 {
        assert(d * d <= m * m) by (nonlinear_arith)
            requires
                0 < d <= m,
        ;
    }
}

/// The distance of a scene is one that a scalar can hold.
pub proof fn lemma_scene_in_range(objects: Seq<Object>, p: SpecVec3)
    ensures
        in_range(blend_all(objects, p)),
    decreases objects.len(),
{
    if objects.len() == 1 {
        objects[0].lemma_distance_in_range(p);
    } else if objects.len() > 1 {
        lemma_scene_in_range(objects.drop_last(), p);
        objects.last().lemma_distance_in_range(p);
        lemma_smin(blend_all(objects.drop_last(), p), objects.last().distance(p), 65536);
    }
}

} // verus!
