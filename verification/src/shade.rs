//! The shader: from a hit to a packed colour.
//!
//! Three fixed lights give the red, the green and the blue channel, each with
//! an exponent of its own, over a little ambient light; a fourth term draws a
//! highlight towards a fixed point. The sum is held between 0 and 1, dimmed
//! by the square of the quality of the hit, and laid over a checkerboard of
//! cells of side one half.

use crate::raytracer::Ray;
use crate::scalar::{clamp_raw, fx_add, fx_clamp, fx_floor, fx_mul, fx_pow, ONE, Scalar};
use crate::vector::{
    lemma_magnitude_zero, SpecVec3, Vec3, vec_direction, vec_dot, vec_normalize, vec_sub,
};
use vstd::prelude::*;

verus! {

/// The raw count of the ambient light: 0.15.
pub const AMBIENT: i32 = 9830;

/// The raw count of the most that one light gives: 0.9.
pub const LIGHT_CAP: i32 = 58982;

/// The direction of the light of the red channel.
pub open spec fn light_red() -> SpecVec3 {
    vec_normalize(SpecVec3 { x: -16384, y: -32768, z: -65536 })
}

/// The direction of the light of the green channel.
pub open spec fn light_green() -> SpecVec3 {
    vec_normalize(SpecVec3 { x: -36045, y: -19661, z: -65536 })
}

/// The direction of the light of the blue channel.
pub open spec fn light_blue() -> SpecVec3 {
    vec_normalize(SpecVec3 { x: 16384, y: 13107, z: 13107 })
}

/// The point that the highlight is drawn towards: (5, 2, -8).
pub open spec fn highlight_point() -> SpecVec3 {
    SpecVec3 { x: 327680, y: 131072, z: -524288 }
}

/// What the light from `light` gives on a surface with the normal `normal`:
/// the dot product raised to `exponent`, and the ambient light, held between
/// 0 and 0.9.
pub open spec fn diffuse(normal: SpecVec3, light: SpecVec3, exponent: nat) -> int {
    fx_clamp(fx_add(fx_pow(vec_dot(normal, light), exponent), 9830), 0, 58982)
}

/// The highlight at `point` on a surface with the normal `normal`.
pub open spec fn highlight(point: SpecVec3, normal: SpecVec3) -> int {
    fx_clamp(
        fx_pow(vec_dot(normal, vec_direction(vec_sub(point, highlight_point()))), 80),
        0,
        65536,
    )
}

/// The brightness of the checkerboard at `point`: 255 in the cells whose
/// three indices add up to an even number, 192 in the others.
pub open spec fn cell_brightness(point: SpecVec3) -> int {
    let cell = fx_floor(fx_mul(point.x, 131072)) + fx_floor(fx_mul(point.y, 131072)) + fx_floor(
        fx_mul(point.z, 131072),
    );
    if cell % 2 == 0 {
        255
    } else {
        192
    }
}

/// One channel: the intensity held between 0 and 1, times the quality `t`,
/// times the brightness `band`, times `t` again; of that the whole part,
/// held between 0 and 255.
pub open spec fn channel(intensity: int, t: int, band: int) -> int {
    fx_clamp(
        fx_floor(fx_mul(fx_mul(fx_mul(fx_clamp(intensity, 0, 65536), t), band * 65536), t)),
        0,
        255,
    )
}

/// The three channels in one number: red above green above blue, eight bits
/// each.
pub open spec fn pack(r: int, g: int, b: int) -> int {
    r * 0x10000 + g * 0x100 + b
}

/// The colour of a hit at `point` with the normal `normal` and the quality
/// `t`.
pub open spec fn shade(point: SpecVec3, normal: SpecVec3, t: int) -> int {
    let spot = highlight(point, normal);
    let band = cell_brightness(point);
    pack(
        channel(fx_add(spot, diffuse(normal, light_red(), 8)), t, band),
        channel(fx_add(spot, diffuse(normal, light_green(), 6)), t, band),
        channel(fx_add(spot, diffuse(normal, light_blue(), 3)), t, band),
    )
}

/// The vector with the given raw counts, scaled to length 1.
fn unit(x: i32, y: i32, z: i32) -> (v: Vec3)
    requires
        x != 0 || y != 0 || z != 0,
    ensures
        v@ == vec_normalize(SpecVec3 { x: x as int, y: y as int, z: z as int }),
{
    let v: Vec3 = Vec3 { x: Scalar { raw: x }, y: Scalar { raw: y }, z: Scalar { raw: z } };
    proof {
        lemma_magnitude_zero(v@);
    }
    v.normalize()
}

/// What one light gives.
fn light_term(normal: Vec3, light: Vec3, exponent: u32) -> (i: Scalar)
    ensures
        i@ == diffuse(normal@, light@, exponent as nat),
{
    normal.dot(light).pow(exponent).add(Scalar { raw: AMBIENT }).clamp(
        Scalar { raw: 0 },
        Scalar { raw: LIGHT_CAP },
    )
}

/// The brightness of the checkerboard at `point`.
fn cell_band(point: Vec3) -> (band: i32)
    ensures
        band == cell_brightness(point@),
{
    let two: Scalar = Scalar { raw: 2 * ONE };
    let cell: i32 = point.x.mul(two).floor() + point.y.mul(two).floor() + point.z.mul(two).floor();
    if cell % 2 == 0 {
        255
    } else {
        192
    }
}

/// One channel of the colour.
fn channel_value(intensity: Scalar, t: Scalar, band: i32) -> (c: u32)
    requires
        band == 255 || band == 192,
    ensures
        c == channel(intensity@, t@, band as int),
        c <= 255,
{
    let lit: Scalar = intensity.clamp(Scalar { raw: 0 }, Scalar { raw: ONE });
    let value: Scalar = lit.mul(t).mul(Scalar::from_int(band)).mul(t);
    clamp_raw(value.floor(), 0, 255) as u32
}

/// The colour of a hit: `ray` holds the point that was hit and the normal of
/// the surface there, `t` is the quality of the hit.
pub fn calculate_light(ray: Ray, t: Scalar) -> (color: u32)
    ensures
        color == shade(ray.origin@, ray.direction@, t@),
        color <= 0xff_ffff,
{
    let light_r: Vec3 = unit(-16384, -32768, -65536);
    let light_g: Vec3 = unit(-36045, -19661, -65536);
    let light_b: Vec3 = unit(16384, 13107, 13107);

    let point: Vec3 = Vec3 {
        x: Scalar { raw: 5 * ONE },
        y: Scalar { raw: 2 * ONE },
        z: Scalar { raw: -8 * ONE },
    };
    let dot_camera: Scalar = ray.direction.dot(ray.origin.sub(point).normalize_or_zero());

    let intensity_r: Scalar = light_term(ray.direction, light_r, 8);
    let intensity_g: Scalar = light_term(ray.direction, light_g, 6);
    let intensity_b: Scalar = light_term(ray.direction, light_b, 3);
    let intensity_camera: Scalar = dot_camera.pow(80).clamp(Scalar { raw: 0 }, Scalar { raw: ONE });

    let c: i32 = cell_band(ray.origin);

    let r: u32 = channel_value(intensity_camera.add(intensity_r), t, c);
    let g: u32 = channel_value(intensity_camera.add(intensity_g), t, c);
    let b: u32 = channel_value(intensity_camera.add(intensity_b), t, c);

    r * 0x0001_0000 + g * 0x0000_0100 + b
}

} // verus!
