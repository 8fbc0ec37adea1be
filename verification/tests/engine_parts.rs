use raytrace::fixed::Fx;
use raytrace::fixed::SCALE;
use raytrace::geometry::Point;
use raytrace::render::Light;
use raytrace::render::Scene;
use raytrace::render::camera_ray;
use raytrace::render::pixel_color;
use raytrace::render::render;
use raytrace::render::render_into_line;
use raytrace::scenes::default_camera;
use raytrace::scenes::scene_ball_on_plane;

fn p(x: i64, y: i64, z: i64) -> Point {
    Point { x: Fx { v: x }, y: Fx { v: y }, z: Fx { v: z } }
}

#[test]
fn center_camera_ray_points_straight_down() {
    // at the window's center the ray runs from the camera to its look-at
    // point, normalized exactly
    let ray = camera_ray(&default_camera(), Fx { v: 5_000_000 }, Fx { v: 5_000_000 }).unwrap();
    assert_eq!(ray.start, p(0, 100_000_000, 0));
    assert_eq!(ray.delta, p(0, -SCALE, 0));
}

#[test]
fn degenerate_window_point_is_an_error() {
    let mut cam = default_camera();
    cam.point_at = cam.location;
    assert!(camera_ray(&cam, Fx { v: 5_000_000 }, Fx { v: 5_000_000 }).is_err());
}

#[test]
fn rows_and_pixels_tile_the_rendered_image() {
    let scene = scene_ball_on_plane();
    let buf = render(&scene, 8, 8, false).unwrap();
    for y in 0..8u32 {
        let row = render_into_line(&scene, 8, 8, y).unwrap();
        assert_eq!(row.len(), 8 * 3);
        assert_eq!(&buf[(y * 24) as usize..(y * 24 + 24) as usize], &row[..]);
        for x in 0..8u32 {
            let pc = pixel_color(&scene, 8, 8, x, y).unwrap();
            let b = raytrace::color::to_png_color(&pc);
            let off = ((y * 8 + x) * 3) as usize;
            assert_eq!([buf[off], buf[off + 1], buf[off + 2]], [b.red, b.green, b.blue]);
        }
    }
}

#[test]
fn background_only_scene_is_uniform() {
    let scene = Scene {
        name: "empty",
        camera: default_camera(),
        light: Light { location: p(100_000_000, 100_000_000, 100_000_000) },
        objects: vec![],
        background: raytrace::color::LinearColor {
            red: Fx { v: 1_000_000 },
            green: Fx { v: 2_000_000 },
            blue: Fx { v: 3_000_000 },
        },
        reflect_limit: 3,
        oversample: 2,
    };
    let buf = render(&scene, 6, 4, true).unwrap();
    assert_eq!(buf.len(), 6 * 4 * 3);
    let first = [buf[0], buf[1], buf[2]];
    for px in buf.chunks(3) {
        assert_eq!([px[0], px[1], px[2]], first);
    }
}
