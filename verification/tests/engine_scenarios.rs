use raytrace::color::LinearColor;
use raytrace::color::scale_linear_color;
use raytrace::color::to_png_color;
use raytrace::fixed::Fx;
use raytrace::fixed::SCALE;
use raytrace::geometry::Point;
use raytrace::render::Camera;
use raytrace::render::Light;
use raytrace::render::RayHit;
use raytrace::render::RenderError;
use raytrace::render::Scene;
use raytrace::render::shade_scolor;
use raytrace::render::Surface;
use raytrace::render::render;
use raytrace::scenes::default_camera;
use raytrace::scenes::surface_glossy;
use raytrace::shapes::Plane;
use raytrace::shapes::Shape;
use raytrace::shapes::Sphere;

fn p(x: i64, y: i64, z: i64) -> Point {
    Point { x: Fx { v: x }, y: Fx { v: y }, z: Fx { v: z } }
}

fn color(r: i64, g: i64, b: i64) -> LinearColor {
    LinearColor { red: Fx { v: r }, green: Fx { v: g }, blue: Fx { v: b } }
}

fn pixel(buf: &[u8], w: u32, x: u32, y: u32) -> [u8; 3] {
    let off = ((y * w + x) * 3) as usize;
    [buf[off], buf[off + 1], buf[off + 2]]
}

#[test]
fn single_sphere_end_to_end() {
    // one unit sphere at the origin, camera ten up looking down, black
    // background: the center pixel sees the sphere, the corners see
    // exactly the background
    let scene = Scene {
        name: "single sphere",
        camera: default_camera(),
        light: Light { location: p(100_000_000, 100_000_000, 100_000_000) },
        objects: vec![Shape::Sphere(Sphere {
            center: p(0, 0, 0),
            r: Fx { v: SCALE },
            surface: surface_glossy(color(SCALE, 0, 0)),
        })],
        background: color(0, 0, 0),
        reflect_limit: 0,
        oversample: 1,
    };
    let buf = render(&scene, 64, 64, false).unwrap();
    assert_eq!(buf.len(), 64 * 64 * 3);
    assert_ne!(pixel(&buf, 64, 32, 32), [0, 0, 0]);
    assert_eq!(pixel(&buf, 64, 0, 0), [0, 0, 0]);
    assert_eq!(pixel(&buf, 64, 63, 0), [0, 0, 0]);
    assert_eq!(pixel(&buf, 64, 0, 63), [0, 0, 0]);
    assert_eq!(pixel(&buf, 64, 63, 63), [0, 0, 0]);
}

#[test]
fn occluded_point_gets_pure_ambient() {
    // a big blocker stands between the light and the whole sphere, so the
    // lit term vanishes and every sphere pixel is exactly ambient color
    let red = surface_glossy(color(SCALE, 0, 0));
    let scene = Scene {
        name: "shadowed sphere",
        camera: default_camera(),
        light: Light { location: p(0, 0, 100_000_000) },
        objects: vec![
            Shape::Sphere(Sphere { center: p(0, 0, 0), r: Fx { v: SCALE }, surface: red }),
            Shape::Sphere(Sphere {
                center: p(0, 0, 50_000_000),
                r: Fx { v: 20_000_000 },
                surface: surface_glossy(color(0, SCALE, 0)),
            }),
        ],
        background: color(0, 0, 0),
        reflect_limit: 0,
        oversample: 1,
    };
    let buf = render(&scene, 32, 32, false).unwrap();
    let expected = to_png_color(&scale_linear_color(&color(SCALE, 0, 0), red.ambient));
    assert_eq!(
        pixel(&buf, 32, 16, 16),
        [expected.red, expected.green, expected.blue]
    );
    assert_eq!(pixel(&buf, 32, 16, 16), [124, 0, 0]);
}

#[test]
fn oversampling_changes_nothing_on_a_flat_background() {
    let mk = |oversample: u32| Scene {
        name: "flat",
        camera: default_camera(),
        light: Light { location: p(100_000_000, 100_000_000, 100_000_000) },
        objects: vec![],
        background: color(2_500_000, 5_000_000, 7_500_000),
        reflect_limit: 0,
        oversample,
    };
    let one = render(&mk(1), 8, 8, false).unwrap();
    let four = render(&mk(4), 8, 8, false).unwrap();
    assert_eq!(one, four);
    let bg = to_png_color(&color(2_500_000, 5_000_000, 7_500_000));
    assert_eq!(pixel(&one, 8, 3, 5), [bg.red, bg.green, bg.blue]);
}

#[test]
fn parallel_and_sequential_render_agree_byte_for_byte() {
    let scene = raytrace::scenes::scene_one_sphere();
    let seq = render(&scene, 16, 16, false).unwrap();
    let par = render(&raytrace::scenes::scene_one_sphere(), 16, 16, true).unwrap();
    assert_eq!(seq, par);
    assert_eq!(seq.len(), 16 * 16 * 3);
}

#[test]
fn mirror_planes_need_bounces_to_brighten() {
    // two parallel fully reflective planes facing each other across the
    // view axis: with no bounces allowed the camera sees only the first
    // plane, with two bounces the second plane's light is mixed in
    let mirror = Surface {
        color: color(SCALE, SCALE, SCALE),
        ambient: Fx { v: 1_000_000 },
        specular: Fx { v: 0 },
        light: Fx { v: 0 },
        checked: false,
        reflection: Fx { v: SCALE },
    };
    let mk = |reflect_limit: u32| Scene {
        name: "mirrors",
        camera: default_camera(),
        light: Light { location: p(0, 100_000_000, 0) },
        objects: vec![
            Shape::Plane(Plane {
                normal: p(0, -SCALE, 0),
                p0: p(0, 50_000_000, 0),
                surface: mirror,
            }),
            Shape::Plane(Plane {
                normal: p(0, SCALE, 0),
                p0: p(0, 20_000_000, 0),
                surface: mirror,
            }),
        ],
        background: color(0, 0, 0),
        reflect_limit,
        oversample: 1,
    };
    let flat = render(&mk(0), 16, 16, false).unwrap();
    let bounced = render(&mk(2), 16, 16, false).unwrap();
    assert_ne!(flat, bounced);
    let sum = |b: &Vec<u8>| b.iter().map(|&x| x as u64).sum::<u64>();
    assert!(sum(&bounced) > sum(&flat));
    assert!(bounced.iter().zip(flat.iter()).any(|(b, f)| b > f));
}

#[test]
fn checkerboard_halves_odd_cells() {
    let mut checked = surface_glossy(color(SCALE, 0, 0));
    checked.checked = true;
    let hit_at = |pt: Point| RayHit {
        distance: Fx { v: SCALE },
        hit_point: pt,
        normal: p(0, SCALE, 0),
        surface: checked,
    };
    // cell (0, 0, 0): full intensity
    assert_eq!(shade_scolor(&hit_at(p(5_000_000, 5_000_000, 5_000_000))).red.v, SCALE);
    // one cell over: half intensity
    assert_eq!(shade_scolor(&hit_at(p(15_000_000, 5_000_000, 5_000_000))).red.v, 5_000_000);
    // a negative coordinate flips the parity too
    assert_eq!(shade_scolor(&hit_at(p(-5_000_000, 5_000_000, 5_000_000))).red.v, 5_000_000);
    // the nudge by the tolerance keeps cell borders stable
    assert_eq!(shade_scolor(&hit_at(p(0, 0, 0))).red.v, SCALE);
}

#[test]
fn degenerate_camera_aborts_the_render() {
    // a camera looking at its own location cannot form rays
    let here = p(0, 100_000_000, 0);
    let scene = Scene {
        name: "broken camera",
        camera: Camera { location: here, point_at: here, u: p(SCALE, 0, 0), v: p(0, 0, -SCALE) },
        light: Light { location: p(100_000_000, 100_000_000, 100_000_000) },
        objects: vec![],
        background: color(0, 0, 0),
        reflect_limit: 0,
        oversample: 1,
    };
    assert_eq!(render(&scene, 4, 4, false), Err(RenderError::DegenerateVector));
    assert_eq!(render(&scene, 4, 4, true), Err(RenderError::DegenerateVector));
}
