use rayn::raytracer::estimate_normal;
use rayn::raytracer::trace;
use rayn::raytracer::Camera;
use rayn::raytracer::Object;
use rayn::raytracer::Ray;
use rayn::raytracer::Scene;
use rayn::raytracer::TraceResult;
use rayn::raytracer::NORMAL_EPSILON;
use rayn::raytracer::TRACE_ITER_MAX;
use rayn::scalar::Scalar;
use rayn::sdf::Sdf;
use rayn::sdf::Sphere;
use rayn::vector::Vec3;

fn fx(v: f32) -> Scalar {
    Scalar { raw: (v * 65536.0) as i32 }
}

fn float(s: Scalar) -> f32 {
    s.raw as f32 / 65536.0
}

fn vec3(x: f32, y: f32, z: f32) -> Vec3 {
    Vec3 { x: fx(x), y: fx(y), z: fx(z) }
}

fn camera() -> Camera {
    Camera {
        origin: vec3(0.0, 0.0, -5.0),
        target: vec3(0.0, 0.0, 0.0),
        aspect_ratio: fx(1.6),
        fov: fx(45.0),
    }
}

fn scene_of(objects: Vec<Object>) -> Scene {
    Scene { camera: camera(), objects }
}

#[test]
fn constants_of_the_marcher() {
    assert_eq!(TRACE_ITER_MAX, 1024);
    assert_eq!(NORMAL_EPSILON, 327);
}

#[test]
fn translate_moves_the_origin_along_the_direction() {
    let mut ray = Ray { origin: vec3(1.0, 2.0, 3.0), direction: vec3(0.0, 0.5, -1.0) };
    ray.translate(fx(4.0));
    assert_eq!(ray.origin, vec3(1.0, 4.0, -1.0));
    assert_eq!(ray.direction, vec3(0.0, 0.5, -1.0));
    ray.translate(fx(-0.5));
    assert_eq!(ray.origin, vec3(1.0, 3.75, -0.5));
}

#[test]
fn get_ray_starts_at_the_camera_and_has_length_one() {
    let c = camera();
    let middle = c.get_ray(fx(0.0), fx(0.0));
    assert_eq!(middle.origin, vec3(0.0, 0.0, -5.0));
    assert_eq!(middle.direction, vec3(0.0, 0.0, 1.0));
    // (3/4, 0, 1) has the length 5/4.
    let right = c.get_ray(fx(0.75), fx(0.0));
    assert_eq!(right.direction.x.raw, 39321);
    assert_eq!(right.direction.y.raw, 0);
    assert_eq!(right.direction.z.raw, 52428);
    let corner = c.get_ray(fx(-1.0), fx(1.0));
    let len = float(corner.direction.magnitude());
    assert!((len - 1.0).abs() < 0.001);
    assert!(corner.direction.x.raw < 0 && corner.direction.y.raw > 0 && corner.direction.z.raw > 0);
}

#[test]
fn a_ray_that_starts_on_the_surface_hits_at_once() {
    let scene = scene_of(vec![Object::Sphere(vec3(0.0, 0.0, 0.0), fx(1.0))]);
    let start = vec3(0.0, 0.0, -1.0);
    let mut ray = Ray { origin: start, direction: vec3(0.0, 0.0, 1.0) };
    match trace(&scene, &mut ray, fx(0.01), fx(30.0)) {
        TraceResult::Hit(hit, quality) => {
            assert_eq!(hit.origin, start);
            assert_eq!(quality, fx(1.0));
        }
        _ => panic!("no hit"),
    }
    assert_eq!(ray.origin, start);
    assert_eq!(ray.direction, vec3(0.0, 0.0, 1.0));
}

#[test]
fn a_ray_that_starts_inside_hits_at_once() {
    let scene = scene_of(vec![Object::Sphere(vec3(0.0, 0.0, 0.0), fx(3.0))]);
    let start = vec3(0.0, 0.0, 0.0);
    let mut ray = Ray { origin: start, direction: vec3(0.0, 1.0, 0.0) };
    match trace(&scene, &mut ray, fx(0.01), fx(30.0)) {
        TraceResult::Hit(hit, quality) => {
            assert_eq!(hit.origin, start);
            // The distance travelled is -3, and 1 - (-3) / 30 is held at 1.
            assert_eq!(quality, fx(1.0));
        }
        _ => panic!("no hit"),
    }
    assert_eq!(ray.origin, start);
}

#[test]
fn a_ray_that_starts_too_far_away_misses_at_once() {
    // The sphere is 9 away, the ray looks away from it, and nothing beyond
    // 5 counts.
    let scene = scene_of(vec![Object::Sphere(vec3(0.0, 0.0, 10.0), fx(1.0))]);
    let start = vec3(0.0, 0.0, 0.0);
    let mut ray = Ray { origin: start, direction: vec3(0.0, 0.0, -1.0) };
    match trace(&scene, &mut ray, fx(0.01), fx(5.0)) {
        TraceResult::Miss(last) => assert_eq!(last, fx(9.0)),
        _ => panic!("no miss"),
    }
    assert_eq!(ray.origin, start);
}

#[test]
fn a_ray_that_looks_away_misses_long_before_the_budget_ends() {
    let scene = scene_of(vec![Object::Sphere(vec3(0.0, 0.0, 0.0), fx(1.0))]);
    let mut ray = Ray { origin: vec3(0.0, 0.0, -5.0), direction: vec3(0.0, 0.0, -1.0) };
    // Steps of 4, 8 and 16 add up to 28; the next one, of 32, passes 30.
    match trace(&scene, &mut ray, fx(0.01), fx(30.0)) {
        TraceResult::Miss(last) => assert_eq!(last, fx(32.0)),
        _ => panic!("no miss"),
    }
    assert_eq!(ray.origin, vec3(0.0, 0.0, -33.0));
}

#[test]
fn an_empty_scene_is_missed() {
    let scene = scene_of(vec![]);
    let mut ray = Ray { origin: vec3(0.0, 0.0, -5.0), direction: vec3(0.0, 0.0, 1.0) };
    match trace(&scene, &mut ray, fx(0.01), fx(30.0)) {
        TraceResult::Miss(last) => assert_eq!(last.raw, i32::MAX),
        _ => panic!("no miss"),
    }
}

#[test]
fn a_ray_along_a_surface_fails_when_the_budget_is_spent() {
    // The ray runs level with the floor, 0.02 above it: every step is 0.02
    // long, which is no hit, and 1024 of them are 20.48, which is no miss.
    let scene = scene_of(vec![Object::Plane(vec3(0.0, 1.0, 0.0), fx(0.02))]);
    let mut ray = Ray { origin: vec3(0.0, 0.0, 0.0), direction: vec3(0.0, 0.0, 1.0) };
    let step = fx(0.02);
    assert_eq!(trace(&scene, &mut ray, fx(0.01), fx(30.0)), TraceResult::Fail);
    assert_eq!(ray.origin.z.raw, 1024 * step.raw);
    assert_eq!(ray.origin.x.raw, 0);
    assert_eq!(ray.origin.y.raw, 0);
}

#[test]
fn a_march_of_long_steps_cannot_fail() {
    // The same ray along the floor, but with a lower threshold of 0.1:
    // 1024 steps of at least that are more than 30, so the march ends, and
    // as the floor never comes nearer it ends in a miss: the 150th step of
    // 0.2 brings the distance travelled to 30, the next one beyond it.
    let scene = scene_of(vec![Object::Plane(vec3(0.0, 1.0, 0.0), fx(0.2))]);
    let mut ray = Ray { origin: vec3(0.0, 0.0, 0.0), direction: vec3(0.0, 0.0, 1.0) };
    let step = fx(0.2);
    assert_eq!(trace(&scene, &mut ray, fx(0.1), fx(30.0)), TraceResult::Miss(step));
    let steps = fx(30.0).raw / step.raw;
    assert_eq!(ray.origin.z.raw, steps * step.raw);
}

#[test]
fn a_hit_beyond_the_upper_threshold_has_the_quality_zero() {
    // A wall 10000 raw units ahead, a ray of length 1 that nears it by 0.8
    // of every step, thresholds of 655 and 12100 raw units: steps of about
    // 10000 and 2000 bring the ray to within 400 of the wall, which is a
    // hit, after more than the upper threshold.
    let wall = Object::Plane(vec3(0.0, 0.0, -1.0), Scalar { raw: 10000 });
    let scene = scene_of(vec![wall]);
    let mut ray = Ray { origin: vec3(0.0, 0.0, 0.0), direction: vec3(0.6, 0.0, 0.8) };
    match trace(&scene, &mut ray, Scalar { raw: 655 }, Scalar { raw: 12100 }) {
        TraceResult::Hit(hit, quality) => {
            assert_eq!(quality.raw, 0);
            let left = wall.sdf(hit.origin).raw;
            assert!(0 <= left && left < 655);
            assert!(10000 + 2000 + left > 12100);
        }
        _ => panic!("no hit"),
    }
}

#[test]
fn the_quality_of_every_hit_lies_between_zero_and_one() {
    let scene = scene_of(vec![
        Object::Sphere(vec3(0.0, 0.0, 0.0), fx(1.0)),
        Object::Cube(vec3(1.5, 0.5, 0.0), vec3(0.5, 0.5, 0.5)),
        Object::Plane(vec3(0.0, 1.0, 0.0), fx(1.5)),
    ]);
    let mut hits = 0;
    for max in [fx(0.5), fx(3.0), fx(4.25), fx(30.0)] {
        for z in [-5.0, -3.0, -1.5, -0.5, 0.0] {
            let mut y = -1.0;
            while y <= 1.0 {
                let mut ray = Ray { origin: vec3(0.1, 0.2, z), direction: vec3(0.0, y, 1.0).normalize() };
                if let TraceResult::Hit(_, q) = trace(&scene, &mut ray, fx(0.01), max) {
                    assert!(0 <= q.raw && q.raw <= 65536);
                    hits += 1;
                }
                y += 0.125;
            }
        }
    }
    assert!(hits > 50);
}

#[test]
fn the_quality_falls_with_the_distance_travelled() {
    let scene = scene_of(vec![Object::Sphere(vec3(0.0, 0.0, 0.0), fx(1.0))]);
    let mut near = Ray { origin: vec3(0.0, 0.0, -2.0), direction: vec3(0.0, 0.0, 1.0) };
    let mut far = Ray { origin: vec3(0.0, 0.0, -16.0), direction: vec3(0.0, 0.0, 1.0) };
    let q_near = match trace(&scene, &mut near, fx(0.01), fx(30.0)) {
        TraceResult::Hit(_, q) => q,
        _ => panic!("no hit"),
    };
    let q_far = match trace(&scene, &mut far, fx(0.01), fx(30.0)) {
        TraceResult::Hit(_, q) => q,
        _ => panic!("no hit"),
    };
    // 1 - 1/30 and 1 - 15/30; the quotient is rounded down.
    assert_eq!(q_near.raw, 65536 - 2184);
    assert_eq!(q_far.raw, 32768);
    assert!(q_far.raw < q_near.raw);
}

#[test]
fn the_centre_ray_hits_the_near_side_of_the_unit_sphere() {
    let scene = scene_of(vec![Object::Sphere(vec3(0.0, 0.0, 0.0), fx(1.0))]);
    let mut ray = scene.camera.get_ray(fx(0.0), fx(0.0));
    match trace(&scene, &mut ray, fx(0.01), fx(30.0)) {
        TraceResult::Hit(hit, quality) => {
            assert!((float(hit.origin.z) + 1.0).abs() <= 0.01);
            assert_eq!(hit.origin.x.raw, 0);
            assert_eq!(hit.origin.y.raw, 0);
            assert!(float(hit.direction.x).abs() < 0.001);
            assert!(float(hit.direction.y).abs() < 0.001);
            assert!((float(hit.direction.z) + 1.0).abs() < 0.001);
            // The ray went 4 of the 30 that it may go.
            assert_eq!(quality.raw, 65536 - 8738);
        }
        _ => panic!("no hit"),
    }
}

#[test]
fn the_standard_scene_never_fails() {
    // Spheres of radius 0.4 to 0.7 close enough to blend, thresholds 0.01
    // and 30: every ray of a fan through the scene ends in a hit or a miss.
    let scene = scene_of(vec![
        Object::Sphere(vec3(-0.6, 0.0, 0.0), fx(0.4)),
        Object::Sphere(vec3(0.3, 0.2, 0.1), fx(0.7)),
        Object::Sphere(vec3(0.0, -0.8, 0.4), fx(0.5)),
        Object::Sphere(vec3(1.1, 0.9, -0.2), fx(0.6)),
    ]);
    let mut hits = 0;
    let mut misses = 0;
    let mut y = -1.0;
    while y <= 1.0 {
        let mut x = -1.6;
        while x <= 1.6 {
            let mut ray = scene.camera.get_ray(fx(x), fx(y));
            match trace(&scene, &mut ray, fx(0.01), fx(30.0)) {
                TraceResult::Hit(_, _) => hits += 1,
                TraceResult::Miss(_) => misses += 1,
                TraceResult::Fail => panic!("the march through ({}, {}) failed", x, y),
            }
            x += 0.1;
        }
        y += 0.1;
    }
    assert!(hits > 0);
    assert!(misses > 0);
}

#[test]
fn estimate_normal_of_a_plane_is_its_normal() {
    let scene = scene_of(vec![Object::Plane(vec3(0.0, 1.0, 0.0), fx(3.0))]);
    let n = estimate_normal(&scene, vec3(2.0, -3.0, 1.0), fx(0.005));
    assert_eq!(n, vec3(0.0, 1.0, 0.0));
    let tilted = scene_of(vec![Object::Plane(vec3(0.0, 0.0, -1.0), fx(0.0))]);
    let n = estimate_normal(&tilted, vec3(2.0, -3.0, 0.0), fx(0.005));
    assert_eq!(n, vec3(0.0, 0.0, -1.0));
}

#[test]
fn estimate_normal_of_a_sphere_points_away_from_its_centre() {
    let ball = Sphere::new(fx(1.0), fx(2.0), fx(3.0), fx(2.0));
    let n = estimate_normal(&ball, vec3(3.0, 2.0, 3.0), fx(0.005));
    assert_eq!(n, vec3(1.0, 0.0, 0.0));
    let n = estimate_normal(&ball, vec3(1.0, 0.0, 3.0), fx(0.005));
    assert_eq!(n, vec3(0.0, -1.0, 0.0));
    // Along the diagonal every component is one over the root of 3.
    let n = estimate_normal(&ball, vec3(2.0, 3.0, 4.0), fx(0.005));
    for c in [n.x, n.y, n.z] {
        assert!((float(c) - 0.57735).abs() < 0.005);
    }
}

#[test]
fn estimate_normal_inside_a_box_is_the_zero_vector() {
    // Inside a box the distance is zero everywhere, so it has no slope.
    let scene = scene_of(vec![Object::Cube(vec3(0.0, 0.0, 0.0), vec3(1.0, 1.0, 1.0))]);
    let n = estimate_normal(&scene, vec3(0.0, 0.0, 0.0), fx(0.005));
    assert_eq!(n, vec3(0.0, 0.0, 0.0));
}

#[test]
fn estimate_normal_does_not_change_when_the_field_is_shifted() {
    // A sphere of radius 2 and one of radius 1.25 round the same centre:
    // the second field is the first, 0.75 higher everywhere.
    let ball = Sphere::new(fx(1.0), fx(2.0), fx(3.0), fx(2.0));
    let core = Sphere::new(fx(1.0), fx(2.0), fx(3.0), fx(1.25));
    for p in [vec3(3.0, 2.0, 3.0), vec3(2.0, 3.0, 4.0), vec3(-0.3, 0.7, 5.1), vec3(1.0, 2.1, 3.0)] {
        assert_eq!(estimate_normal(&ball, p, fx(0.005)), estimate_normal(&core, p, fx(0.005)));
    }
    let low = scene_of(vec![Object::Plane(vec3(0.6, 0.0, 0.8), fx(3.0))]);
    let high = scene_of(vec![Object::Plane(vec3(0.6, 0.0, 0.8), fx(-7.5))]);
    let p = vec3(0.2, -1.0, 0.4);
    assert_eq!(estimate_normal(&low, p, fx(0.005)), estimate_normal(&high, p, fx(0.005)));
}

#[test]
fn estimate_normal_changes_by_the_rounding_at_most_when_the_field_is_scaled() {
    let plain = scene_of(vec![Object::Plane(vec3(0.6, 0.0, 0.8), fx(3.0))]);
    let steep = scene_of(vec![Object::Plane(vec3(1.8, 0.0, 2.4), fx(9.0))]);
    let p = vec3(0.2, -1.0, 0.4);
    let a = estimate_normal(&plain, p, fx(0.005));
    let b = estimate_normal(&steep, p, fx(0.005));
    for (x, y) in [(a.x, b.x), (a.y, b.y), (a.z, b.z)] {
        assert!((x.raw - y.raw).abs() <= 200);
    }
    assert!((float(a.x) - 0.6).abs() < 0.005 && (float(a.z) - 0.8).abs() < 0.005);
}
