//! The frame driver: one colour for every pixel of a frame.
//!
//! The pixels of a frame are numbered row by row. The colour of a pixel
//! depends on the scene, on the pixel's number and on the size of the frame,
//! and on nothing else: no pixel reads what another one wrote, so the pixels
//! of one frame may be computed in any order, or all at once.

use crate::raytracer::{
    Camera, march, NORMAL_EPSILON, normal_spec, Object, Outcome, quality, Ray, Scene, trace,
    TRACE_ITER_MAX, TraceResult,
};
use crate::scalar::{div_floor, fx_mul, fx_sub, HALF, ONE, sat, saturate, Scalar};
use crate::shade::{calculate_light, shade};
use crate::vector::{SpecVec3, Vec3, vec_normalize};
use vstd::prelude::*;

verus! {

/// The raw count of the distance from a surface below which a ray has hit
/// it: 0.01.
pub const TRACE_MIN: i32 = 655;

/// The raw count of the distance after which a ray has missed everything: 30.
pub const TRACE_MAX: i32 = 1966080;

/// The raw count of -1.
pub const MINUS_ONE: i32 = -65536;

/// The raw count of where the camera stands on the z axis: -5.
pub const CAMERA_Z: i32 = -327680;

/// The raw count of the offset of the ceiling and of the floor: 3.
pub const PLANE_OFFSET: i32 = 196608;

/// The raw count of the camera's field of view: 45 degrees.
pub const FIELD_OF_VIEW: i32 = 2949120;

/// The colour of a ray that missed.
pub const COLOR_BLACK: u32 = 0x0000_0000;

/// The colour of a ray whose march failed.
pub const COLOR_MAGENTA: u32 = 0x00ff_00ff;

/// Where the `i`-th of `n` pixels lies between -1 and 1: `2 * i / n - 1`.
pub open spec fn ndc(i: int, n: int) -> int {
    fx_sub(fx_mul(sat((i * 65536) / n), 131072), 65536)
}

/// The direction of the ray through the pixel `n` of a frame of the given
/// width and height: across the image plane by the pixel's column, stretched
/// by the camera's aspect ratio, and by its row.
pub open spec fn pixel_direction(camera: Camera, n: int, width: int, height: int) -> SpecVec3 {
    let row = n / width;
    let column = n % width;
    vec_normalize(
        SpecVec3 {
            x: fx_mul(ndc(column, width), camera.aspect_ratio@),
            y: ndc(row, height),
            z: 65536,
        },
    )
}

/// The colour of the pixel `n`: that of the hit where the ray through it
/// hits, black where it misses, magenta where its march fails.
pub open spec fn pixel_spec(scene: &Scene, n: int, width: int, height: int) -> int {
    let dir = pixel_direction(scene.camera, n, width, height);
    match march(
        scene,
        scene.camera.origin@,
        dir,
        0,
        TRACE_MIN as int,
        TRACE_MAX as int,
        TRACE_ITER_MAX as nat,
    ) {
        Outcome::Hit { at, total } => shade(
            at,
            normal_spec(scene, at, NORMAL_EPSILON as int),
            quality(total, TRACE_MAX as int),
        ),
        Outcome::Miss { at, last } => COLOR_BLACK as int,
        Outcome::Exhausted { at } => COLOR_MAGENTA as int,
    }
}

/// `buffer` holds the frame of `scene`: in every slot the colour of the
/// pixel of that number.
pub open spec fn is_frame(buffer: Seq<u32>, scene: &Scene, width: int, height: int) -> bool {
    forall|n: int| 0 <= n < buffer.len() ==> buffer[n] == pixel_spec(scene, n, width, height)
}

/// The objects of the animated scene: a sphere round every centre of even
/// index and a box round every centre of odd index, all of radius or
/// half-extent one half, between a ceiling and a floor at the height 3.
pub open spec fn animated_objects(centers: Seq<Vec3>) -> Seq<Object> {
    Seq::new(
        centers.len(),
        |i: int|
            if i % 2 == 0 {
                Object::Sphere(centers[i], Scalar { raw: HALF })
            } else {
                Object::Cube(
                    centers[i],
                    Vec3 { x: Scalar { raw: HALF }, y: Scalar { raw: HALF }, z: Scalar { raw: HALF } },
                )
            },
    ).push(
        Object::Plane(
            Vec3 { x: Scalar { raw: 0 }, y: Scalar { raw: MINUS_ONE }, z: Scalar { raw: 0 } },
            Scalar { raw: PLANE_OFFSET },
        ),
    ).push(
        Object::Plane(
            Vec3 { x: Scalar { raw: 0 }, y: Scalar { raw: ONE }, z: Scalar { raw: 0 } },
            Scalar { raw: PLANE_OFFSET },
        ),
    )
}

/// The camera of the animated scene: at (0, 0, -5), looking at the origin.
pub open spec fn animated_camera(aspect_ratio: Scalar) -> Camera {
    Camera {
        origin: Vec3 { x: Scalar { raw: 0 }, y: Scalar { raw: 0 }, z: Scalar { raw: CAMERA_Z } },
        target: Vec3 { x: Scalar { raw: 0 }, y: Scalar { raw: 0 }, z: Scalar { raw: 0 } },
        aspect_ratio,
        fov: Scalar { raw: FIELD_OF_VIEW },
    }
}

/// Two buffers of one length that hold the frame of one scene are equal:
/// what a frame holds is decided by the scene and the size of the frame.
pub proof fn lemma_frame_is_determined(a: Seq<u32>, b: Seq<u32>, scene: &Scene, width: int, height: int)
    requires
        is_frame(a, scene, width, height),
        is_frame(b, scene, width, height),
        a.len() == b.len(),
    ensures
        a == b,
{
    assert(a =~= b);
}

/// Where the `i`-th of `n` pixels lies between -1 and 1.
fn pixel_coordinate(i: usize, n: usize) -> (c: Scalar)
    requires
        n > 0,
    ensures
        c@ == ndc(i as int, n as int),
{
    let share: Scalar = saturate(div_floor(i as i128 * 65536, n as i128));
    share.mul(Scalar { raw: 2 * ONE }).sub(Scalar { raw: ONE })
}

/// The scene of one moment of the animation, from the centres that its
/// moving objects have at that moment.
pub fn build_scene(aspect_ratio: Scalar, centers: &Vec<Vec3>) -> (scene: Scene)
    ensures
        scene.camera == animated_camera(aspect_ratio),
        scene.objects@ == animated_objects(centers@),
        scene.wf(),
{
    let zero: Scalar = Scalar { raw: 0 };
    let half: Scalar = Scalar { raw: HALF };
    let mut objects: Vec<Object> = Vec::new();
    let mut i: usize = 0;
    while i < centers.len()
        invariant
            i <= centers.len(),
            half.raw == HALF,
            objects@ == animated_objects(centers@).take(i as int),
        decreases centers.len() - i,
    {
        if i % 2 == 0 {
            objects.push(Object::Sphere(centers[i], half));
        } else {
            objects.push(Object::Cube(centers[i], Vec3 { x: half, y: half, z: half }));
        }
        i = i + 1;
    }
    objects.push(
        Object::Plane(Vec3 { x: zero, y: Scalar { raw: MINUS_ONE }, z: zero }, Scalar { raw: PLANE_OFFSET }),
    );
    objects.push(
        Object::Plane(Vec3 { x: zero, y: Scalar { raw: ONE }, z: zero }, Scalar { raw: PLANE_OFFSET }),
    );
    Scene {
        camera: Camera {
            origin: Vec3 { x: zero, y: zero, z: Scalar { raw: CAMERA_Z } },
            target: Vec3 { x: zero, y: zero, z: zero },
            aspect_ratio,
            fov: Scalar { raw: FIELD_OF_VIEW },
        },
        objects,
    }
}

/// The colour of the pixel `n` of a frame of the given width and height.
pub fn pixel_color(scene: &Scene, n: usize, width: usize, height: usize) -> (color: u32)
    requires
        width > 0,
        height > 0,
    ensures
        color == pixel_spec(scene, n as int, width as int, height as int),
        color <= 0x00ff_ffff,
{
    let y: usize = n / width;
    let x: usize = n % width;

    let fy: Scalar = pixel_coordinate(y, height);
    let fx: Scalar = pixel_coordinate(x, width).mul(scene.camera.aspect_ratio);

    let mut ray: Ray = scene.camera.get_ray(fx, fy);

    match trace(scene, &mut ray, Scalar { raw: TRACE_MIN }, Scalar { raw: TRACE_MAX }) {
        TraceResult::Hit(hit, t) => calculate_light(hit, t),
        TraceResult::Miss(_d) => COLOR_BLACK,
        TraceResult::Fail => COLOR_MAGENTA,
    }
}

/// Fills `buffer` with the frame of `scene`: every slot with the colour of
/// the pixel of its number.
pub fn render(buffer: &mut Vec<u32>, scene: &Scene, width: usize, height: usize)
    requires
        width > 0,
        height > 0,
    ensures
        final(buffer)@.len() == old(buffer)@.len(),
        is_frame(final(buffer)@, scene, width as int, height as int),
        forall|n: int| 0 <= n < final(buffer)@.len() ==> final(buffer)@[n] <= 0x00ff_ffff,
{
    let mut n: usize = 0;
    while n < buffer.len()
        invariant
            width > 0,
            height > 0,
            n <= buffer.len(),
            buffer@.len() == old(buffer)@.len(),
            forall|m: int| 0 <= m < n ==> buffer@[m] == pixel_spec(scene, m, width as int, height as int),
            forall|m: int| 0 <= m < n ==> buffer@[m] <= 0x00ff_ffff,
        decreases buffer.len() - n,
    {
        let color: u32 = pixel_color(scene, n, width, height);
        buffer.set(n, color);
        n = n + 1;
    }
}

} // verus!
