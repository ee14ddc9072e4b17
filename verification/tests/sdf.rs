use rayn::scalar::Scalar;
use rayn::sdf::Cube;
use rayn::sdf::Plane;
use rayn::sdf::Sdf;
use rayn::sdf::Sphere;
use rayn::vector::Vec3;

fn fx(v: f32) -> Scalar {
    Scalar { raw: (v * 65536.0) as i32 }
}

fn float(s: Scalar) -> f32 {
    s.raw as f32 / 65536.0
}

fn vec3(x: f32, y: f32, z: f32) -> Vec3 {
    Vec3 { x: fx(x), y: fx(y), z: fx(z) }
}

fn test_sphere() -> Sphere {
    Sphere { p: vec3(1.0, 2.0, 3.0), r: fx(1.0) }
}

#[test]
fn shpere_sdf_neg() {
    let sphere = test_sphere();

    let p = vec3(1.0, 2.0, 3.0);

    assert_eq!(-1.0, float(sphere.sdf(p)))
}

#[test]
fn sphere_sdf_zero() {
    let sphere = test_sphere();

    let p = vec3(0.0, 2.0, 3.0);

    assert_eq!(0.0, float(sphere.sdf(p)));
}

#[test]
fn sphere_sdf_pos() {
    let sphere = test_sphere();

    let p = vec3(-1.0, 2.0, 3.0);

    assert_eq!(1.0, float(sphere.sdf(p)));
}

fn test_plane() -> Plane {
    Plane { n: vec3(0.0, 1.0, 0.0), d: fx(0.0) }
}

#[test]
fn plane_sdf_neg() {
    let plane = test_plane();

    let p = vec3(-1.0, -1.0, -1.0);

    assert_eq!(-1.0, float(plane.sdf(p)));
}

#[test]
fn plane_sdf_zero() {
    let plane = test_plane();

    let p = vec3(0.0, 0.0, 0.0);

    assert_eq!(0.0, float(plane.sdf(p)));
}

#[test]
fn plane_sdf_pos() {
    let plane = test_plane();

    let p = vec3(1.0, 1.0, 1.0);

    assert_eq!(1.0, float(plane.sdf(p)));
}

fn test_cube() -> Cube {
    Cube { p: vec3(1.0, 2.0, 3.0), b: vec3(0.5, 0.5, 0.5) }
}

#[test]
fn cube_sdf_zero() {
    let cube = test_cube();

    let p = vec3(1.5, 2.0, 3.0);

    assert_eq!(0.0, float(cube.sdf(p)));
}

#[test]
fn cube_sdf_pos() {
    let cube = test_cube();

    let p = vec3(2.0, 2.0, 3.0);

    assert_eq!(0.5, float(cube.sdf(p)));
}
