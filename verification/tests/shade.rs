use rayn::raytracer::Ray;
use rayn::scalar::Scalar;
use rayn::shade::calculate_light;
use rayn::shade::AMBIENT;
use rayn::shade::LIGHT_CAP;
use rayn::vector::Vec3;

fn fx(v: f32) -> Scalar {
    Scalar { raw: (v * 65536.0) as i32 }
}

fn vec3(x: f32, y: f32, z: f32) -> Vec3 {
    Vec3 { x: fx(x), y: fx(y), z: fx(z) }
}

fn hit(point: Vec3, normal: Vec3) -> Ray {
    Ray { origin: point, direction: normal }
}

fn red(c: u32) -> u32 {
    (c >> 16) & 0xff
}

fn green(c: u32) -> u32 {
    (c >> 8) & 0xff
}

fn blue(c: u32) -> u32 {
    c & 0xff
}

#[test]
fn constants_of_the_lights() {
    assert_eq!(AMBIENT, (0.15 * 65536.0) as i32);
    assert_eq!(LIGHT_CAP, (0.9 * 65536.0) as i32);
}

#[test]
fn without_a_normal_only_the_ambient_light_is_left() {
    // Every dot product is 0, so every channel is 0.15 * 255 = 38.25.
    let c = calculate_light(hit(vec3(0.0, 0.0, 0.0), vec3(0.0, 0.0, 0.0)), fx(1.0));
    assert_eq!(c, 0x0026_2626);
}

#[test]
fn the_dark_cells_of_the_checkerboard_are_three_quarters_as_bright() {
    // (0.6, 0, 0) lies in the cell (1, 0, 0), whose indices add up to an
    // odd number: 0.15 * 192 = 28.8.
    let c = calculate_light(hit(vec3(0.6, 0.0, 0.0), vec3(0.0, 0.0, 0.0)), fx(1.0));
    assert_eq!(c, 0x001c_1c1c);
    // (0.6, 0.6, 0) lies in the cell (1, 1, 0): bright again.
    let c = calculate_light(hit(vec3(0.6, 0.6, 0.0), vec3(0.0, 0.0, 0.0)), fx(1.0));
    assert_eq!(c, 0x0026_2626);
    // (-0.1, 0, 0) lies in the cell (-1, 0, 0): dark.
    let c = calculate_light(hit(vec3(-0.1, 0.0, 0.0), vec3(0.0, 0.0, 0.0)), fx(1.0));
    assert_eq!(c, 0x001c_1c1c);
}

#[test]
fn the_quality_dims_by_its_square() {
    // 0.15 * 255 / 4 = 9.56.
    let c = calculate_light(hit(vec3(0.0, 0.0, 0.0), vec3(0.0, 0.0, 0.0)), fx(0.5));
    assert_eq!(c, 0x0009_0909);
    let c = calculate_light(hit(vec3(0.0, 0.0, 0.0), vec3(0.0, 0.0, 0.0)), fx(0.0));
    assert_eq!(c, 0);
    let c = calculate_light(hit(vec3(0.0, 0.0, 0.0), vec3(0.0, 0.0, 0.0)), fx(-1.0));
    assert_eq!(c, 0x0026_2626);
}

#[test]
fn a_surface_that_faces_the_lights() {
    // The normal (0, 0, -1) has the dot products 0.873 and 0.847 with the
    // lights of red and green, and a negative one with the light of blue.
    let c = calculate_light(hit(vec3(0.0, 0.0, -1.0), vec3(0.0, 0.0, -1.0)), fx(1.0));
    assert_eq!(c, 0x007c_8400);
    let c = calculate_light(hit(vec3(0.0, 0.0, -1.0), vec3(0.0, 0.0, -1.0)), fx(0.5));
    assert_eq!(c, 0x001f_2100);
    let c = calculate_light(hit(vec3(0.6, 0.0, -1.0), vec3(0.0, 0.0, -1.0)), fx(1.0));
    assert_eq!(c, 0x005d_6300);
}

#[test]
fn a_surface_that_faces_the_light_of_blue() {
    let n = vec3(0.25, 0.2, 0.2).normalize();
    let c = calculate_light(hit(vec3(0.0, 0.0, 0.0), n), fx(1.0));
    // The light of blue gives all it can: 0.9 * 255 = 229.5. The normal
    // faces away from the two other lights, but their exponents are even:
    // their dot products, -0.84 and -0.88, give 0.25 and 0.47 over the
    // ambient light.
    assert_eq!(blue(c), 229);
    assert_eq!(red(c), 100);
    assert_eq!(green(c), 167);
}

#[test]
fn every_channel_stays_within_eight_bits() {
    let points = [vec3(0.0, 0.0, 0.0), vec3(5.0, 2.0, -8.0), vec3(-3.3, 0.7, 12.0)];
    let normals = [
        vec3(0.0, 0.0, -1.0),
        vec3(1.0, 0.0, 0.0),
        vec3(-0.6, 0.0, 0.8),
        vec3(0.0, 0.0, 0.0),
        vec3(300.0, -300.0, 300.0),
    ];
    let qualities = [-100.0, -1.0, 0.0, 0.3, 1.0, 1.5, 100.0, 30000.0];
    for p in points {
        for n in normals {
            for q in qualities {
                let c = calculate_light(hit(p, n), fx(q));
                assert!(c <= 0x00ff_ffff);
            }
        }
    }
}

#[test]
fn a_quality_above_one_saturates_the_channels() {
    let c = calculate_light(hit(vec3(0.0, 0.0, 0.0), vec3(0.0, 0.0, 0.0)), fx(100.0));
    assert_eq!(c, 0x00ff_ffff);
}

#[test]
fn the_highlight_point_itself_has_no_highlight() {
    // At the point that the highlight is drawn towards there is no
    // direction to it, and the highlight is left out.
    let at = calculate_light(hit(vec3(5.0, 2.0, -8.0), vec3(0.0, 0.0, 1.0)), fx(1.0));
    // What is left is what the three lights give to the normal (0, 0, 1):
    // 0.49, 0.52 and 0.30 of the 255 of the bright cell (10, 4, -16).
    assert_eq!(at, 0x007c_844c);
    // One step along the normal the highlight is there in full.
    let behind = calculate_light(hit(vec3(5.0, 2.0, -7.0), vec3(0.0, 0.0, 1.0)), fx(1.0));
    assert_eq!(behind, 0x00ff_ffff);
}

#[test]
fn a_surface_that_faces_away_from_the_highlight_point_is_lit_by_it() {
    // The normal points from the highlight point to the surface: the dot
    // product with that direction is 1, and so is its 80th power.
    let point = vec3(5.0, 2.0, -3.0);
    let c = calculate_light(hit(point, vec3(0.0, 0.0, 1.0)), fx(1.0));
    // The cell (10, 4, -6) is a bright one, and the sum of the highlight
    // and any light is held at 1.
    assert_eq!(c, 0x00ff_ffff);
}

#[test]
fn the_same_hit_has_the_same_colour() {
    let h = hit(vec3(0.3, -0.2, -0.9), vec3(0.3, 0.1, -0.9).normalize());
    assert_eq!(calculate_light(h, fx(0.8)), calculate_light(h, fx(0.8)));
}
