use raytrace::fixed::Fx;
use raytrace::fixed::SCALE;
use raytrace::geometry::Point;
use raytrace::geometry::Vector;
use raytrace::render::Hittable;
use raytrace::render::RenderError;
use raytrace::render::Surface;
use raytrace::render::nearest_hit;
use raytrace::scenes::surface_glossy;
use raytrace::shapes::Plane;
use raytrace::shapes::Shape;
use raytrace::shapes::Sphere;
use raytrace::color::LinearColor;

fn p(x: i64, y: i64, z: i64) -> Point {
    Point { x: Fx { v: x }, y: Fx { v: y }, z: Fx { v: z } }
}

fn color(r: i64, g: i64, b: i64) -> LinearColor {
    LinearColor { red: Fx { v: r }, green: Fx { v: g }, blue: Fx { v: b } }
}

fn plain(r: i64, g: i64, b: i64) -> Surface {
    surface_glossy(color(r, g, b))
}

fn down_ray() -> Vector {
    Vector { start: p(0, 100_000_000, 0), delta: p(0, -SCALE, 0) }
}

#[test]
fn sphere_aimed_at_center_hits_at_distance_minus_radius() {
    // camera ten units out, unit radius: the hit is at distance nine,
    // exactly center_distance - radius
    let s = Sphere { center: p(0, 0, 0), r: Fx { v: SCALE }, surface: plain(SCALE, 0, 0) };
    let hit = s.hit_test(&down_ray()).unwrap().unwrap();
    assert!((hit.distance.v - 90_000_000).abs() <= 1_000);
    assert_eq!(hit.distance.v, 90_000_000);
    assert_eq!(hit.hit_point, p(0, 10_000_000, 0));
    assert_eq!(hit.normal, p(0, SCALE, 0));
}

#[test]
fn sphere_off_axis_misses() {
    let s = Sphere { center: p(50_000_000, 0, 0), r: Fx { v: SCALE }, surface: plain(SCALE, 0, 0) };
    assert!(s.hit_test(&down_ray()).unwrap().is_none());
}

#[test]
fn sphere_behind_the_ray_still_reports_its_near_root() {
    // the test does not reject t below zero: a ray pointing away from the
    // sphere reports the hit behind its start
    let s = Sphere { center: p(0, 0, 0), r: Fx { v: SCALE }, surface: plain(SCALE, 0, 0) };
    let up = Vector { start: p(0, 100_000_000, 0), delta: p(0, SCALE, 0) };
    let got = s.hit_test(&up).unwrap().unwrap();
    assert_eq!(got.distance.v, -110_000_000);
}

#[test]
fn degenerate_sphere_reports_the_fatal_error() {
    // a zero-radius sphere puts the hit point on its own center, and no
    // outward normal can be normalized
    let s = Sphere { center: p(0, 0, 0), r: Fx { v: 0 }, surface: plain(SCALE, 0, 0) };
    assert_eq!(s.hit_test(&down_ray()), Err(RenderError::DegenerateVector));
}

#[test]
fn plane_hit_keeps_its_stored_normal() {
    let pl = Plane { normal: p(0, SCALE, 0), p0: p(0, 0, 0), surface: plain(0, SCALE, 0) };
    let hit = pl.hit_test(&down_ray()).unwrap().unwrap();
    assert_eq!(hit.distance.v, 100_000_000);
    assert_eq!(hit.hit_point, p(0, 0, 0));
    // reported unchanged, not flipped toward the ray
    assert_eq!(hit.normal, p(0, SCALE, 0));
}

#[test]
fn plane_parallel_ray_misses() {
    let pl = Plane { normal: p(SCALE, 0, 0), p0: p(-20_000_000, 0, 0), surface: plain(0, SCALE, 0) };
    assert!(pl.hit_test(&down_ray()).unwrap().is_none());
}

#[test]
fn plane_behind_the_ray_misses() {
    let pl = Plane { normal: p(0, SCALE, 0), p0: p(0, 200_000_000, 0), surface: plain(0, SCALE, 0) };
    assert!(pl.hit_test(&down_ray()).unwrap().is_none());
}

#[test]
fn nearest_hit_picks_the_smaller_distance_in_either_order() {
    let near = Shape::Sphere(Sphere {
        center: p(0, 40_000_000, 0),
        r: Fx { v: SCALE },
        surface: plain(SCALE, 0, 0),
    });
    let far = Shape::Sphere(Sphere {
        center: p(0, 0, 0),
        r: Fx { v: SCALE },
        surface: plain(0, 0, SCALE),
    });
    let ab = nearest_hit(&down_ray(), &vec![near, far]).unwrap().unwrap();
    let ba = nearest_hit(&down_ray(), &vec![far, near]).unwrap().unwrap();
    assert_eq!(ab.distance.v, 50_000_000);
    assert_eq!(ba.distance.v, 50_000_000);
    assert_eq!(ab.surface, ba.surface);
    assert_eq!(ab.surface.color.red.v, SCALE);
}

#[test]
fn nearest_hit_tie_keeps_the_earlier_shape() {
    let red = Shape::Sphere(Sphere {
        center: p(0, 0, 0),
        r: Fx { v: SCALE },
        surface: plain(SCALE, 0, 0),
    });
    let blue = Shape::Sphere(Sphere {
        center: p(0, 0, 0),
        r: Fx { v: SCALE },
        surface: plain(0, 0, SCALE),
    });
    let hit = nearest_hit(&down_ray(), &vec![red, blue]).unwrap().unwrap();
    assert_eq!(hit.surface.color.red.v, SCALE);
    let hit2 = nearest_hit(&down_ray(), &vec![blue, red]).unwrap().unwrap();
    assert_eq!(hit2.surface.color.blue.v, SCALE);
}

#[test]
fn nearest_hit_of_an_empty_scene_is_none() {
    assert!(nearest_hit(&down_ray(), &vec![]).unwrap().is_none());
}
