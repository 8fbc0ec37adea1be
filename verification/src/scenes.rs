//! The hand-built demonstration scenes: pure configuration data over the
//! engine's types.

use vstd::prelude::*;

use crate::color::LinearColor;
use crate::fixed::Fx;
use crate::fixed::SCALE;
use crate::fixed::from_int_m;
use crate::fixed::fx;
use crate::fixed::fx_from_int;
use crate::geometry::Point;
use crate::render::Camera;
use crate::render::Light;
use crate::render::Scene;
use crate::render::Surface;
use crate::render::black;
use crate::shapes::Plane;
use crate::shapes::Shape;
use crate::shapes::Sphere;

verus! {

/// A point from raw coordinates.
pub open spec fn ptm(x: int, y: int, z: int) -> Point {
    Point { x: fx(x), y: fx(y), z: fx(z) }
}

/// A color from raw channel intensities.
pub open spec fn lcm(red: int, green: int, blue: int) -> LinearColor {
    LinearColor { red: fx(red), green: fx(green), blue: fx(blue) }
}

fn pt(x: i64, y: i64, z: i64) -> (r: Point)
    ensures
        r == ptm(x as int, y as int, z as int),
{
    Point { x: Fx { v: x }, y: Fx { v: y }, z: Fx { v: z } }
}

fn lc(red: i64, green: i64, blue: i64) -> (r: LinearColor)
    ensures
        r == lcm(red as int, green as int, blue as int),
{
    LinearColor { red: Fx { v: red }, green: Fx { v: green }, blue: Fx { v: blue } }
}

/// The one camera every demonstration scene looks through: ten units up,
/// looking at the origin, with a ten-by-ten window.
pub open spec fn default_camera_m() -> Camera {
    Camera {
        location: ptm(0, 100_000_000, 0),
        point_at: ptm(0, 0, 0),
        u: ptm(100_000_000, 0, 0),
        v: ptm(0, 0, -100_000_000),
    }
}

pub fn default_camera() -> (r: Camera)
    ensures
        r == default_camera_m(),
{
    Camera {
        location: pt(0, 100_000_000, 0),
        point_at: pt(0, 0, 0),
        u: pt(100_000_000, 0, 0),
        v: pt(0, 0, -100_000_000),
    }
}

/// A glossy, unreflective finish over a base color.
pub open spec fn surface_glossy_m(c: LinearColor) -> Surface {
    Surface {
        color: c,
        ambient: fx(2_000_000),
        specular: fx(5_000_000),
        light: fx(6_000_000),
        checked: false,
        reflection: fx(0),
    }
}

pub fn surface_glossy(c: LinearColor) -> (r: Surface)
    ensures
        r == surface_glossy_m(c),
{
    Surface {
        color: c,
        ambient: Fx { v: 2_000_000 },
        specular: Fx { v: 5_000_000 },
        light: Fx { v: 6_000_000 },
        checked: false,
        reflection: Fx { v: 0 },
    }
}

/// The same finish made mildly mirror-like.
pub open spec fn reflective_m(s: Surface) -> Surface {
    Surface { reflection: fx(2_000_000), ..s }
}

pub fn reflective(s: Surface) -> (r: Surface)
    ensures
        r == reflective_m(s),
{
    Surface { reflection: Fx { v: 2_000_000 }, ..s }
}

/// A red test finish with chosen diffuse and specular strengths.
pub open spec fn test_surface_m(light: Fx, specular: Fx) -> Surface {
    Surface {
        color: lcm(SCALE as int, 0, 0),
        ambient: fx(2_000_000),
        specular,
        light,
        checked: false,
        reflection: fx(0),
    }
}

pub fn test_surface(light: Fx, specular: Fx) -> (r: Surface)
    ensures
        r == test_surface_m(light, specular),
{
    Surface {
        color: lc(SCALE, 0, 0),
        ambient: Fx { v: 2_000_000 },
        specular,
        light,
        checked: false,
        reflection: Fx { v: 0 },
    }
}

/// A half-reflective white checkerboard finish.
pub open spec fn surface_white_checked_m() -> Surface {
    Surface {
        color: lcm(2_000_000, 2_000_000, 2_000_000),
        ambient: fx(2_000_000),
        specular: fx(5_000_000),
        light: fx(6_000_000),
        checked: true,
        reflection: fx(5_000_000),
    }
}

fn surface_white_checked() -> (r: Surface)
    ensures
        r == surface_white_checked_m(),
{
    Surface {
        color: lc(2_000_000, 2_000_000, 2_000_000),
        ambient: Fx { v: 2_000_000 },
        specular: Fx { v: 5_000_000 },
        light: Fx { v: 6_000_000 },
        checked: true,
        reflection: Fx { v: 5_000_000 },
    }
}

/// The six spheres of the occlusion test: a foreground pair late in the
/// list must still hide what stands behind it.
pub open spec fn occlusion_objects_m() -> Seq<Shape> {
    seq![
        Shape::Sphere(
            Sphere {
                center: ptm(15_000_000, 20_000_000, 0),
                r: fx(7_000_000),
                surface: surface_glossy_m(lcm(SCALE as int, 5_000_000, 0)),
            },
        ),
        Shape::Sphere(
            Sphere {
                center: ptm(30_000_000, 0, 0),
                r: fx(SCALE as int),
                surface: surface_glossy_m(lcm(SCALE as int, 0, 0)),
            },
        ),
        Shape::Sphere(
            Sphere {
                center: ptm(-30_000_000, 0, 0),
                r: fx(SCALE as int),
                surface: surface_glossy_m(lcm(0, 0, SCALE as int)),
            },
        ),
        Shape::Sphere(
            Sphere {
                center: ptm(0, 0, 0),
                r: fx(SCALE as int),
                surface: surface_glossy_m(lcm(0, SCALE as int, 0)),
            },
        ),
        Shape::Sphere(
            Sphere {
                center: ptm(0, -40_000_000, 0),
                r: fx(30_000_000),
                surface: surface_glossy_m(lcm(SCALE as int, SCALE as int, 0)),
            },
        ),
        Shape::Sphere(
            Sphere {
                center: ptm(-15_000_000, 20_000_000, 0),
                r: fx(7_000_000),
                surface: surface_glossy_m(lcm(SCALE as int, 0, SCALE as int)),
            },
        ),
    ]
}

pub fn scene_sphere_occlusion_test() -> (r: Scene)
    ensures
        r.camera == default_camera_m(),
        r.light.location == ptm(50_000_000, 50_000_000, 50_000_000),
        r.background == black(),
        r.objects@ == occlusion_objects_m(),
        r.reflect_limit == 2,
        r.oversample == 2,
{
    let mut objects: Vec<Shape> = Vec::new();
    objects.push(
        Shape::Sphere(
            Sphere {
                center: pt(15_000_000, 20_000_000, 0),
                r: Fx { v: 7_000_000 },
                surface: surface_glossy(lc(SCALE, 5_000_000, 0)),
            },
        ),
    );
    objects.push(
        Shape::Sphere(
            Sphere {
                center: pt(30_000_000, 0, 0),
                r: Fx { v: SCALE },
                surface: surface_glossy(lc(SCALE, 0, 0)),
            },
        ),
    );
    objects.push(
        Shape::Sphere(
            Sphere {
                center: pt(-30_000_000, 0, 0),
                r: Fx { v: SCALE },
                surface: surface_glossy(lc(0, 0, SCALE)),
            },
        ),
    );
    objects.push(
        Shape::Sphere(
            Sphere {
                center: pt(0, 0, 0),
                r: Fx { v: SCALE },
                surface: surface_glossy(lc(0, SCALE, 0)),
            },
        ),
    );
    objects.push(
        Shape::Sphere(
            Sphere {
                center: pt(0, -40_000_000, 0),
                r: Fx { v: 30_000_000 },
                surface: surface_glossy(lc(SCALE, SCALE, 0)),
            },
        ),
    );
    objects.push(
        Shape::Sphere(
            Sphere {
                center: pt(-15_000_000, 20_000_000, 0),
                r: Fx { v: 7_000_000 },
                surface: surface_glossy(lc(SCALE, 0, SCALE)),
            },
        ),
    );
    proof {
        assert(objects@ =~= occlusion_objects_m());
    }
    Scene {
        name: "Occlusion Test",
        camera: default_camera(),
        background: lc(0, 0, 0),
        light: Light { location: pt(50_000_000, 50_000_000, 50_000_000) },
        objects,
        reflect_limit: 2,
        oversample: 2,
    }
}

/// Sphere `j` of the surface-finish test grid: a five-by-five array whose
/// diffuse strength grows along one axis and specular along the other.
pub open spec fn surface_test_shape_m(j: int) -> Shape {
    Shape::Sphere(
        Sphere {
            center: Point {
                x: from_int_m(j % 5 - 2),
                y: fx(0),
                z: from_int_m(j / 5 - 2),
            },
            r: fx(4_000_000),
            surface: test_surface_m(fx((j % 5) * 2_000_000), fx((j / 5) * 2_000_000)),
        },
    )
}

pub fn scene_sphere_surface_test() -> (r: Scene)
    ensures
        r.camera == default_camera_m(),
        r.light.location == ptm(50_000_000, 50_000_000, 50_000_000),
        r.background == black(),
        r.objects@.len() == 25,
        forall|j: int| 0 <= j < 25 ==> r.objects@[j] == surface_test_shape_m(j),
        r.reflect_limit == 2,
        r.oversample == 2,
{
    let mut objects: Vec<Shape> = Vec::new();
    let mut xi: u32 = 0;
    while xi < 25
        invariant
            0 <= xi <= 25,
            objects@.len() == xi as int,
            forall|j: int| 0 <= j < xi as int ==> objects@[j] == surface_test_shape_m(j),
        decreases 25 - xi,
    {
        let cx: i64 = (xi % 5) as i64 - 2;
        let cz: i64 = (xi / 5) as i64 - 2;
        let lightv: i64 = (xi % 5) as i64 * 2_000_000;
        let specv: i64 = (xi / 5) as i64 * 2_000_000;
        objects.push(
            Shape::Sphere(
                Sphere {
                    center: Point { x: fx_from_int(cx), y: Fx { v: 0 }, z: fx_from_int(cz) },
                    r: Fx { v: 4_000_000 },
                    surface: test_surface(Fx { v: lightv }, Fx { v: specv }),
                },
            ),
        );
        xi = xi + 1;
    }
    Scene {
        name: "Surface Finish Test",
        camera: default_camera(),
        background: lc(0, 0, 0),
        light: Light { location: pt(50_000_000, 50_000_000, 50_000_000) },
        objects,
        reflect_limit: 2,
        oversample: 2,
    }
}

/// One glossy sphere at the origin boxed in by three reflective
/// checkerboard planes.
pub open spec fn one_sphere_objects_m() -> Seq<Shape> {
    seq![
        Shape::Sphere(
            Sphere {
                center: ptm(0, 0, 0),
                r: fx(SCALE as int),
                surface: surface_glossy_m(lcm(SCALE as int, 5_000_000, 0)),
            },
        ),
        Shape::Plane(
            Plane {
                normal: ptm(SCALE as int, 0, 0),
                p0: ptm(-20_000_000, 0, 0),
                surface: surface_white_checked_m(),
            },
        ),
        Shape::Plane(
            Plane {
                normal: ptm(0, SCALE as int, 0),
                p0: ptm(0, -20_000_000, 0),
                surface: surface_white_checked_m(),
            },
        ),
        Shape::Plane(
            Plane {
                normal: ptm(0, 0, SCALE as int),
                p0: ptm(0, 0, -20_000_000),
                surface: surface_white_checked_m(),
            },
        ),
    ]
}

pub fn scene_one_sphere() -> (r: Scene)
    ensures
        r.camera == default_camera_m(),
        r.light.location == ptm(100_000_000, 100_000_000, 100_000_000),
        r.background == black(),
        r.objects@ == one_sphere_objects_m(),
        r.reflect_limit == 2,
        r.oversample == 2,
{
    let mut objects: Vec<Shape> = Vec::new();
    objects.push(
        Shape::Sphere(
            Sphere {
                center: pt(0, 0, 0),
                r: Fx { v: SCALE },
                surface: surface_glossy(lc(SCALE, 5_000_000, 0)),
            },
        ),
    );
    objects.push(
        Shape::Plane(
            Plane {
                normal: pt(SCALE, 0, 0),
                p0: pt(-20_000_000, 0, 0),
                surface: surface_white_checked(),
            },
        ),
    );
    objects.push(
        Shape::Plane(
            Plane {
                normal: pt(0, SCALE, 0),
                p0: pt(0, -20_000_000, 0),
                surface: surface_white_checked(),
            },
        ),
    );
    objects.push(
        Shape::Plane(
            Plane {
                normal: pt(0, 0, SCALE),
                p0: pt(0, 0, -20_000_000),
                surface: surface_white_checked(),
            },
        ),
    );
    proof {
        assert(objects@ =~= one_sphere_objects_m());
    }
    Scene {
        name: "Single Sphere, Reflective Planes",
        camera: default_camera(),
        background: lc(0, 0, 0),
        light: Light { location: pt(100_000_000, 100_000_000, 100_000_000) },
        objects,
        reflect_limit: 2,
        oversample: 2,
    }
}

/// A unit sphere at the origin with one small marker sphere out along
/// each positive axis.
pub open spec fn axis_objects_m() -> Seq<Shape> {
    seq![
        Shape::Sphere(
            Sphere {
                center: ptm(0, 0, 0),
                r: fx(SCALE as int),
                surface: surface_glossy_m(lcm(SCALE as int, SCALE as int, SCALE as int)),
            },
        ),
        Shape::Sphere(
            Sphere {
                center: ptm(30_000_000, 0, 0),
                r: fx(2_500_000),
                surface: surface_glossy_m(lcm(SCALE as int, 0, 0)),
            },
        ),
        Shape::Sphere(
            Sphere {
                center: ptm(0, 30_000_000, 0),
                r: fx(2_500_000),
                surface: surface_glossy_m(lcm(0, SCALE as int, 0)),
            },
        ),
        Shape::Sphere(
            Sphere {
                center: ptm(0, 0, 30_000_000),
                r: fx(2_500_000),
                surface: surface_glossy_m(lcm(0, 0, SCALE as int)),
            },
        ),
    ]
}

pub fn scene_axis_spheres() -> (r: Scene)
    ensures
        r.camera == default_camera_m(),
        r.light.location == ptm(100_000_000, 100_000_000, 100_000_000),
        r.background == black(),
        r.objects@ == axis_objects_m(),
        r.reflect_limit == 2,
        r.oversample == 2,
{
    let mut objects: Vec<Shape> = Vec::new();
    objects.push(
        Shape::Sphere(
            Sphere {
                center: pt(0, 0, 0),
                r: Fx { v: SCALE },
                surface: surface_glossy(lc(SCALE, SCALE, SCALE)),
            },
        ),
    );
    objects.push(
        Shape::Sphere(
            Sphere {
                center: pt(30_000_000, 0, 0),
                r: Fx { v: 2_500_000 },
                surface: surface_glossy(lc(SCALE, 0, 0)),
            },
        ),
    );
    objects.push(
        Shape::Sphere(
            Sphere {
                center: pt(0, 30_000_000, 0),
                r: Fx { v: 2_500_000 },
                surface: surface_glossy(lc(0, SCALE, 0)),
            },
        ),
    );
    objects.push(
        Shape::Sphere(
            Sphere {
                center: pt(0, 0, 30_000_000),
                r: Fx { v: 2_500_000 },
                surface: surface_glossy(lc(0, 0, SCALE)),
            },
        ),
    );
    proof {
        assert(objects@ =~= axis_objects_m());
    }
    Scene {
        name: "Axis Spheres",
        camera: default_camera(),
        background: lc(0, 0, 0),
        light: Light { location: pt(100_000_000, 100_000_000, 100_000_000) },
        objects,
        reflect_limit: 2,
        oversample: 2,
    }
}

/// A small sphere resting in front of a reflective checkerboard plane.
pub open spec fn ball_on_plane_objects_m() -> Seq<Shape> {
    seq![
        Shape::Sphere(
            Sphere {
                center: ptm(0, -20_000_000, -10_000_000),
                r: fx(6_600_000),
                surface: surface_glossy_m(lcm(0, 0, SCALE as int)),
            },
        ),
        Shape::Plane(
            Plane {
                normal: ptm(0, 0, SCALE as int),
                p0: ptm(0, 0, -20_000_000),
                surface: surface_white_checked_m(),
            },
        ),
    ]
}

pub fn scene_ball_on_plane() -> (r: Scene)
    ensures
        r.camera == default_camera_m(),
        r.light.location == ptm(100_000_000, 100_000_000, 100_000_000),
        r.background == black(),
        r.objects@ == ball_on_plane_objects_m(),
        r.reflect_limit == 2,
        r.oversample == 2,
{
    let mut objects: Vec<Shape> = Vec::new();
    objects.push(
        Shape::Sphere(
            Sphere {
                center: pt(0, -20_000_000, -10_000_000),
                r: Fx { v: 6_600_000 },
                surface: surface_glossy(lc(0, 0, SCALE)),
            },
        ),
    );
    objects.push(
        Shape::Plane(
            Plane {
                normal: pt(0, 0, SCALE),
                p0: pt(0, 0, -20_000_000),
                surface: surface_white_checked(),
            },
        ),
    );
    proof {
        assert(objects@ =~= ball_on_plane_objects_m());
    }
    Scene {
        name: "Ball on Plane",
        camera: default_camera(),
        background: lc(0, 0, 0),
        light: Light { location: pt(100_000_000, 100_000_000, 100_000_000) },
        objects,
        reflect_limit: 2,
        oversample: 2,
    }
}

} // verus!
