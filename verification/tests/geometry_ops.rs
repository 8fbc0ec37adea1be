use raytrace::fixed::Fx;
use raytrace::fixed::SCALE;
use raytrace::geometry::Point;
use raytrace::geometry::Vector;
use raytrace::geometry::addp;
use raytrace::geometry::dotp;
use raytrace::geometry::lenp;
use raytrace::geometry::negp;
use raytrace::geometry::normalizep;
use raytrace::geometry::ray_location;
use raytrace::geometry::scalep;
use raytrace::geometry::subp;

fn p(x: i64, y: i64, z: i64) -> Point {
    Point { x: Fx { v: x }, y: Fx { v: y }, z: Fx { v: z } }
}

#[test]
fn normalize_is_identity_on_unit_vectors() {
    // an axis vector
    let e = p(0, -SCALE, 0);
    assert_eq!(normalizep(e), e);
    // a 3-4-5 unit vector
    let u = p(6_000_000, 8_000_000, 0);
    assert_eq!(normalizep(u), u);
}

#[test]
fn normalize_scales_to_unit_length() {
    let n = normalizep(p(0, -100_000_000, 0));
    assert_eq!(n, p(0, -SCALE, 0));
    assert_eq!(lenp(n).v, SCALE);
}

#[test]
fn length_of_a_three_four_triangle() {
    assert_eq!(lenp(p(30_000_000, 40_000_000, 0)).v, 50_000_000);
    assert_eq!(lenp(p(0, 0, 0)).v, 0);
}

#[test]
fn vector_arithmetic() {
    let a = p(10_000_000, 20_000_000, -30_000_000);
    let b = p(5_000_000, -5_000_000, 10_000_000);
    assert_eq!(addp(a, b), p(15_000_000, 15_000_000, -20_000_000));
    assert_eq!(subp(a, b), p(5_000_000, 25_000_000, -40_000_000));
    assert_eq!(negp(a), p(-10_000_000, -20_000_000, 30_000_000));
    assert_eq!(scalep(a, Fx { v: 20_000_000 }), p(20_000_000, 40_000_000, -60_000_000));
    // (1,2,-3) . (0.5,-0.5,1) == 0.5 - 1 - 3 == -3.5
    assert_eq!(dotp(a, b).v, -35_000_000);
}

#[test]
fn ray_location_walks_along_the_direction() {
    let ray = Vector { start: p(0, 100_000_000, 0), delta: p(0, -SCALE, 0) };
    assert_eq!(ray_location(&ray, Fx { v: 90_000_000 }), p(0, 10_000_000, 0));
}
