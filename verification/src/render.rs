//! The rendering engine: scene data, hit resolution, shading, and the
//! assembly of the output image.

use vstd::prelude::*;

use rayon::iter::IntoParallelIterator;
use rayon::iter::ParallelIterator;

use crate::color::LinearColor;
use crate::color::png_color_m;
use crate::color::to_png_color;
use crate::color::add_color_m;
use crate::color::add_linear_color;
use crate::color::scale_color_m;
use crate::color::scale_linear_color;
use crate::fixed::Fx;
use crate::fixed::SCALE;
use crate::fixed::add_m;
use crate::fixed::add_v;
use crate::fixed::div_m;
use crate::fixed::floor_v;
use crate::fixed::from_int_m;
use crate::fixed::fx;
use crate::fixed::fx_add;
use crate::fixed::fx_div;
use crate::fixed::fx_floor;
use crate::fixed::fx_from_int;
use crate::fixed::fx_mul;
use crate::fixed::fx_pow;
use crate::fixed::fx_sub;
use crate::fixed::is_even_i64;
use crate::fixed::lemma_tdiv_mul_cancel;
use crate::fixed::lemma_tdiv_mul_cancel2;
use crate::fixed::lemma_tdiv_ordered;
use crate::fixed::lemma_tdiv_scale_cancel;
use crate::fixed::lemma_double_pos;
use crate::fixed::lemma_from_int_pos;
use crate::fixed::mul_m;
use crate::fixed::pow_m;
use crate::fixed::sat64;
use crate::fixed::sub_m;
use crate::geometry::EPSILON;
use crate::geometry::Point;
use crate::geometry::Vector;
use crate::geometry::addp;
use crate::geometry::addp_m;
use crate::geometry::dotp;
use crate::geometry::dotp_m;
use crate::geometry::lenp;
use crate::geometry::lenp_m;
use crate::geometry::negp;
use crate::geometry::negp_m;
use crate::geometry::normalizep;
use crate::geometry::normalizep_m;
use crate::geometry::scalep;
use crate::geometry::scalep_m;
use crate::geometry::subp;
use crate::geometry::subp_m;
use crate::shapes::Shape;
use crate::shapes::shape_hit_m;

verus! {

/// How a surface responds to light.
#[derive(Clone, Copy, PartialEq, Eq, Structural, Debug)]
pub struct Surface {
    pub color: LinearColor,
    pub ambient: Fx,
    pub specular: Fx,
    pub light: Fx,
    pub checked: bool,
    pub reflection: Fx,
}

/// A single point light; it has no falloff and no color of its own.
#[derive(Clone, Copy, PartialEq, Eq, Structural, Debug)]
pub struct Light {
    pub location: Point,
}

/// The viewpoint: a location, a point looked at, and the half-extent
/// basis vectors of the rectangular image window.
#[derive(Clone, Copy, PartialEq, Eq, Structural, Debug)]
pub struct Camera {
    pub location: Point,
    pub point_at: Point,
    pub u: Point,
    pub v: Point,
}

/// A full scene description, read-only for the length of a render.
pub struct Scene {
    pub name: &'static str,
    pub camera: Camera,
    pub light: Light,
    pub objects: Vec<Shape>,
    pub background: LinearColor,
    pub reflect_limit: u32,
    pub oversample: u32,
}

/// One ray-shape intersection: how far along the ray, where, which way
/// the surface faces, and what it is made of.
#[derive(Clone, Copy, PartialEq, Eq, Structural, Debug)]
pub struct RayHit {
    pub distance: Fx,
    pub hit_point: Point,
    pub normal: Point,
    pub surface: Surface,
}

/// The single fatal failure of the engine: a direction too short to
/// normalize, the sign of degenerate scene data.
#[derive(Clone, Copy, PartialEq, Eq, Structural, Debug)]
pub enum RenderError {
    DegenerateVector,
}

/// The shared intersection capability of every shape.
pub trait Hittable {
    /// The mathematical model of this shape's intersection test.
    spec fn hit_m(&self, ray: Vector) -> Result<Option<RayHit>, RenderError>;

    /// Test the ray against this shape.
    fn hit_test(&self, ray: &Vector) -> (r: Result<Option<RayHit>, RenderError>)
        ensures
            r == self.hit_m(*ray),
    ;
}

/// Whether a candidate hit beats the hit found so far: any hit beats
/// none, and otherwise strictly smaller distance wins, so on a tie the
/// earlier shape in the list is kept.
pub open spec fn better_hit(new: Option<RayHit>, cur: Option<RayHit>) -> bool {
    match new {
        Option::None => false,
        Option::Some(n) => match cur {
            Option::None => true,
            Option::Some(c) => n.distance.v < c.distance.v,
        },
    }
}

/// The nearest hit over a list of shapes, scanned in order.
pub open spec fn nearest_hit_m(objects: Seq<Shape>, ray: Vector) -> Result<
    Option<RayHit>,
    RenderError,
>
    decreases objects.len(),
{
    if objects.len() == 0 {
        Ok(None)
    } else {
        match nearest_hit_m(objects.drop_last(), ray) {
            Err(e) => Err(e),
            Ok(prev) => match shape_hit_m(objects.last(), ray) {
                Err(e) => Err(e),
                Ok(h) => if better_hit(h, prev) {
                    Ok(h)
                } else {
                    Ok(prev)
                },
            },
        }
    }
}

/// Once a prefix of the scan has failed, the whole scan fails the same way.
proof fn lemma_nearest_err_extends(objects: Seq<Shape>, ray: Vector, k: int)
    requires
        0 <= k <= objects.len(),
        nearest_hit_m(objects.take(k), ray) is Err,
    ensures
        nearest_hit_m(objects, ray) == nearest_hit_m(objects.take(k), ray),
    decreases objects.len() - k,
{
    if k == objects.len() {
        assert(objects.take(k) =~= objects);
    } else {
        assert(objects.take(k + 1).drop_last() =~= objects.take(k));
        assert(objects.take(k + 1).last() == objects[k]);
        lemma_nearest_err_extends(objects, ray, k + 1);
    }
}

pub fn nearest_hit(ray: &Vector, objects: &Vec<Shape>) -> (r: Result<Option<RayHit>, RenderError>)
    ensures
        r == nearest_hit_m(objects@, *ray),
{
    let mut best: Option<RayHit> = None;
    let mut i: usize = 0;
    while i < objects.len()
        invariant
            0 <= i <= objects@.len(),
            nearest_hit_m(objects@.take(i as int), *ray) == Ok::<Option<RayHit>, RenderError>(best),
        decreases objects@.len() - i,
    {
        proof {
            assert(objects@.take(i + 1).drop_last() =~= objects@.take(i as int));
            assert(objects@.take(i + 1).last() == objects@[i as int]);
        }
        match objects[i].hit_test(ray) {
            Err(e) => {
                proof {
                    lemma_nearest_err_extends(objects@, *ray, i + 1);
                }
                return Err(e);
            },
            Ok(h) => {
                let replace = match (&h, &best) {
                    (Option::Some(n), Option::None) => true,
                    (Option::Some(n), Option::Some(c)) => n.distance.v < c.distance.v,
                    _ => false,
                };
                if replace {
                    best = h;
                }
            },
        }
        i = i + 1;
    }
    proof {
        assert(objects@.take(objects@.len() as int) =~= objects@);
    }
    Ok(best)
}

/// What the nearest-hit scan promises: a winning hit comes from some
/// shape in the list and no shape's hit is strictly nearer; a miss means
/// every shape missed; a failure is some shape's failure.  Which hits win
/// does not depend on where in the list they stand, only on distance,
/// except that exact ties keep the earliest.
#[verifier::rlimit(100)]
#[verifier::spinoff_prover]
pub proof fn lemma_nearest_hit_is_min(objects: Seq<Shape>, ray: Vector)
    ensures
        match nearest_hit_m(objects, ray) {
            Ok(best) => match best {
                Option::Some(h) => (exists|i: int|
                    0 <= i < objects.len() && #[trigger] shape_hit_m(objects[i], ray)
                        == Ok::<Option<RayHit>, RenderError>(Some(h))) && (forall|i: int|
                    0 <= i < objects.len() ==> match #[trigger] shape_hit_m(objects[i], ray) {
                        Ok(og) => match og {
                            Option::Some(g) => h.distance.v <= g.distance.v,
                            Option::None => true,
                        },
                        Err(_) => false,
                    }),
                Option::None => forall|i: int|
                    0 <= i < objects.len() ==> #[trigger] shape_hit_m(objects[i], ray)
                        == Ok::<Option<RayHit>, RenderError>(Option::<RayHit>::None),
            },
            Err(e) => exists|i: int|
                0 <= i < objects.len() && #[trigger] shape_hit_m(objects[i], ray)
                    == Err::<Option<RayHit>, RenderError>(e),
        },
    decreases objects.len(),
{
    if objects.len() > 0 {
        lemma_nearest_hit_is_min(objects.drop_last(), ray);
        assert(objects.drop_last() =~= objects.take(objects.len() - 1));
        assert(forall|i: int|
            0 <= i < objects.len() - 1 ==> objects.drop_last()[i] == objects[i]);
        assert(objects.last() == objects[objects.len() - 1]);
    }
}

/// Two shapes that both hit at different distances: the nearer one wins
/// whichever order the pair is listed in.
pub proof fn lemma_nearest_hit_pair_order(a: Shape, b: Shape, ray: Vector, ha: RayHit, hb: RayHit)
    requires
        shape_hit_m(a, ray) == Ok::<Option<RayHit>, RenderError>(Some(ha)),
        shape_hit_m(b, ray) == Ok::<Option<RayHit>, RenderError>(Some(hb)),
        ha.distance.v < hb.distance.v,
    ensures
        nearest_hit_m(seq![a, b], ray) == Ok::<Option<RayHit>, RenderError>(Some(ha)),
        nearest_hit_m(seq![b, a], ray) == Ok::<Option<RayHit>, RenderError>(Some(ha)),
{
    let sab = seq![a, b];
    let sba = seq![b, a];
    assert(sab.drop_last() =~= seq![a]);
    assert(sba.drop_last() =~= seq![b]);
    assert(seq![a].drop_last() =~= Seq::<Shape>::empty());
    assert(seq![b].drop_last() =~= Seq::<Shape>::empty());
    assert(seq![a].last() == a);
    assert(seq![b].last() == b);
    assert(sab.last() == b);
    assert(sba.last() == a);
    assert(nearest_hit_m(Seq::<Shape>::empty(), ray) == Ok::<Option<RayHit>, RenderError>(
        Option::<RayHit>::None,
    ));
    assert(nearest_hit_m(seq![a], ray) == Ok::<Option<RayHit>, RenderError>(Some(ha)));
    assert(nearest_hit_m(seq![b], ray) == Ok::<Option<RayHit>, RenderError>(Some(hb)));
    assert(!better_hit(Some(hb), Some(ha)));
    assert(better_hit(Some(ha), Some(hb)));
}

/// No light at all.
pub open spec fn black() -> LinearColor {
    LinearColor { red: fx(0), green: fx(0), blue: fx(0) }
}

/// Full white, the color of specular highlights.
pub open spec fn white() -> LinearColor {
    LinearColor { red: fx(SCALE as int), green: fx(SCALE as int), blue: fx(SCALE as int) }
}

/// The ray through the image window at fractional window coordinates
/// `(xt, yt)`, centered on the camera's look-at point; degenerate camera
/// data (the window point coinciding with the camera) is an error.
pub open spec fn camera_ray_m(c: Camera, xt: Fx, yt: Fx) -> Result<Vector, RenderError> {
    let ray_point_at = addp_m(
        addp_m(c.point_at, scalep_m(c.u, sub_m(xt, fx(5_000_000)))),
        scalep_m(c.v, sub_m(yt, fx(5_000_000))),
    );
    let dir = subp_m(ray_point_at, c.location);
    if lenp_m(dir).v < EPSILON {
        Err(RenderError::DegenerateVector)
    } else {
        Ok(Vector { start: c.location, delta: normalizep_m(dir) })
    }
}

pub fn camera_ray(c: &Camera, xt: Fx, yt: Fx) -> (r: Result<Vector, RenderError>)
    ensures
        r == camera_ray_m(*c, xt, yt),
{
    let ray_point_at = addp(
        addp(c.point_at, scalep(c.u, fx_sub(xt, Fx { v: 5_000_000 }))),
        scalep(c.v, fx_sub(yt, Fx { v: 5_000_000 })),
    );
    let dir = subp(ray_point_at, c.location);
    let len = lenp(dir);
    if len.v < EPSILON {
        Err(RenderError::DegenerateVector)
    } else {
        Ok(Vector { start: c.location, delta: normalizep(dir) })
    }
}

/// The unobstructed ray from the light to a point, if any.  The ray is
/// fired from the light, so the point is lit exactly when nothing closer
/// than the point itself (within the tolerance) intercepts the ray.
pub open spec fn light_vector_m(point: Point, scene: Scene) -> Result<Option<Vector>, RenderError> {
    let light_direction = subp_m(point, scene.light.location);
    let light_distance = lenp_m(light_direction);
    if light_distance.v < EPSILON {
        Err(RenderError::DegenerateVector)
    } else {
        let ray = Vector { start: scene.light.location, delta: normalizep_m(light_direction) };
        match nearest_hit_m(scene.objects@, ray) {
            Err(e) => Err(e),
            Ok(hit_opt) => match hit_opt {
                Option::Some(hit) => if hit.distance.v > sub_m(
                    light_distance,
                    fx(EPSILON as int),
                ).v {
                    Ok(Some(ray))
                } else {
                    Ok(None)
                },
                Option::None => Ok(None),
            },
        }
    }
}

pub fn light_vector(point: &Point, scene: &Scene) -> (r: Result<Option<Vector>, RenderError>)
    ensures
        r == light_vector_m(*point, *scene),
{
    let light_direction = subp(*point, scene.light.location);
    let light_distance = lenp(light_direction);
    if light_distance.v < EPSILON {
        Err(RenderError::DegenerateVector)
    } else {
        let ray = Vector { start: scene.light.location, delta: normalizep(light_direction) };
        match nearest_hit(&ray, &scene.objects) {
            Err(e) => Err(e),
            Ok(hit_opt) => match hit_opt {
                Option::Some(hit) => if hit.distance.v > fx_sub(
                    light_distance,
                    Fx { v: EPSILON },
                ).v {
                    Ok(Some(ray))
                } else {
                    Ok(None)
                },
                Option::None => Ok(None),
            },
        }
    }
}

/// How many reflection bounces are still allowed.
pub open spec fn depth_left(scene: Scene, reflect_count: u32) -> nat {
    if reflect_count < scene.reflect_limit {
        (scene.reflect_limit - reflect_count) as nat
    } else {
        0nat
    }
}

/// The surface's own color at a hit: with the checkerboard flag set, the
/// hit point's cell parity (unit cells, nudged by the tolerance) keeps
/// full intensity on even cells and halves it on odd ones.
pub open spec fn shade_scolor_m(hit: RayHit) -> LinearColor {
    if hit.surface.checked {
        let fsum = floor_v(add_v(hit.hit_point.x.v as int, EPSILON as int)) + floor_v(
            add_v(hit.hit_point.y.v as int, EPSILON as int),
        ) + floor_v(add_v(hit.hit_point.z.v as int, EPSILON as int));
        if fsum % 2 == 0 {
            scale_color_m(hit.surface.color, fx(SCALE as int))
        } else {
            scale_color_m(hit.surface.color, fx(5_000_000))
        }
    } else {
        hit.surface.color
    }
}

pub fn shade_scolor(hit: &RayHit) -> (r: LinearColor)
    ensures
        r == shade_scolor_m(*hit),
{
    if hit.surface.checked {
        let fa = fx_floor(fx_add(hit.hit_point.x, Fx { v: EPSILON }));
        let fb = fx_floor(fx_add(hit.hit_point.y, Fx { v: EPSILON }));
        let fc = fx_floor(fx_add(hit.hit_point.z, Fx { v: EPSILON }));
        let fsum: i64 = fa + fb + fc;
        if is_even_i64(fsum) {
            scale_linear_color(&hit.surface.color, Fx { v: SCALE })
        } else {
            scale_linear_color(&hit.surface.color, Fx { v: 5_000_000 })
        }
    } else {
        hit.surface.color
    }
}

/// The diffuse and specular contribution at a hit, or none if the point
/// is in shadow.  The diffuse factor is not clamped at zero: a surface
/// facing away from the light subtracts, as the shading model specifies.
pub open spec fn shade_light_m(
    ray: Vector,
    scene: Scene,
    hit: RayHit,
    scolor: LinearColor,
) -> Result<LinearColor, RenderError> {
    match light_vector_m(hit.hit_point, scene) {
        Err(e) => Err(e),
        Ok(lv_opt) => match lv_opt {
            Option::Some(lv) => {
                let half = addp_m(ray.delta, lv.delta);
                if lenp_m(half).v < EPSILON {
                    Err(RenderError::DegenerateVector)
                } else {
                    let kspecular = pow_m(dotp_m(hit.normal, normalizep_m(half)), 50);
                    Ok(
                        add_color_m(
                            scale_color_m(white(), mul_m(kspecular, hit.surface.specular)),
                            scale_color_m(
                                scolor,
                                mul_m(hit.surface.light, dotp_m(hit.normal, negp_m(lv.delta))),
                            ),
                        ),
                    )
                }
            },
            Option::None => Ok(black()),
        },
    }
}

pub fn shade_light(ray: &Vector, scene: &Scene, hit: &RayHit, scolor: &LinearColor) -> (r: Result<
    LinearColor,
    RenderError,
>)
    ensures
        r == shade_light_m(*ray, *scene, *hit, *scolor),
{
    match light_vector(&hit.hit_point, scene) {
        Err(e) => Err(e),
        Ok(lv_opt) => match lv_opt {
            Option::Some(lv) => {
                let half = addp(ray.delta, lv.delta);
                let half_len = lenp(half);
                if half_len.v < EPSILON {
                    Err(RenderError::DegenerateVector)
                } else {
                    let kspecular = fx_pow(dotp(hit.normal, normalizep(half)), 50);
                    let white_part = scale_linear_color(
                        &LinearColor {
                            red: Fx { v: SCALE },
                            green: Fx { v: SCALE },
                            blue: Fx { v: SCALE },
                        },
                        fx_mul(kspecular, hit.surface.specular),
                    );
                    let diffuse_part = scale_linear_color(
                        scolor,
                        fx_mul(hit.surface.light, dotp(hit.normal, negp(lv.delta))),
                    );
                    Ok(add_linear_color(&white_part, &diffuse_part))
                }
            },
            Option::None => Ok(
                LinearColor { red: Fx { v: 0 }, green: Fx { v: 0 }, blue: Fx { v: 0 } },
            ),
        },
    }
}

/// The mirror contribution at a hit: present only while the surface is
/// reflective beyond the tolerance and bounces remain, and then the shade
/// of the reflected ray scaled by the surface's reflectivity.
pub open spec fn shade_reflect_m(
    ray: Vector,
    scene: Scene,
    hit: RayHit,
    reflect_count: u32,
) -> Result<LinearColor, RenderError>
    decreases depth_left(scene, reflect_count), 0nat,
{
    if hit.surface.reflection.v > EPSILON && reflect_count < scene.reflect_limit {
        let rvec = subp_m(
            negp_m(ray.delta),
            scalep_m(hit.normal, mul_m(fx(20_000_000), dotp_m(negp_m(ray.delta), hit.normal))),
        );
        if lenp_m(rvec).v < EPSILON {
            Err(RenderError::DegenerateVector)
        } else {
            match ray_color_m(
                Vector { start: hit.hit_point, delta: normalizep_m(rvec) },
                scene,
                (reflect_count + 1) as u32,
            ) {
                Err(e) => Err(e),
                Ok(rcolor) => Ok(scale_color_m(rcolor, hit.surface.reflection)),
            }
        }
    } else {
        Ok(black())
    }
}

pub fn shade_reflect(ray: &Vector, scene: &Scene, hit: &RayHit, reflect_count: u32) -> (r: Result<
    LinearColor,
    RenderError,
>)
    ensures
        r == shade_reflect_m(*ray, *scene, *hit, reflect_count),
    decreases depth_left(*scene, reflect_count), 0nat,
{
    if hit.surface.reflection.v > EPSILON && reflect_count < scene.reflect_limit {
        let rvec = subp(
            negp(ray.delta),
            scalep(hit.normal, fx_mul(Fx { v: 20_000_000 }, dotp(negp(ray.delta), hit.normal))),
        );
        let rlen = lenp(rvec);
        if rlen.v < EPSILON {
            Err(RenderError::DegenerateVector)
        } else {
            match ray_color(
                &Vector { start: hit.hit_point, delta: normalizep(rvec) },
                scene,
                reflect_count + 1,
            ) {
                Err(e) => Err(e),
                Ok(rcolor) => Ok(scale_linear_color(&rcolor, hit.surface.reflection)),
            }
        }
    } else {
        Ok(LinearColor { red: Fx { v: 0 }, green: Fx { v: 0 }, blue: Fx { v: 0 } })
    }
}

/// The full Whitted shade at a hit: ambient plus shadow-tested light plus
/// bounded recursive reflection, summed unclamped.
pub open spec fn shade_pixel_m(
    ray: Vector,
    scene: Scene,
    hit: RayHit,
    reflect_count: u32,
) -> Result<LinearColor, RenderError>
    decreases depth_left(scene, reflect_count), 1nat,
{
    let scolor = shade_scolor_m(hit);
    let ambient = scale_color_m(scolor, hit.surface.ambient);
    match shade_reflect_m(ray, scene, hit, reflect_count) {
        Err(e) => Err(e),
        Ok(reflected) => match shade_light_m(ray, scene, hit, scolor) {
            Err(e) => Err(e),
            Ok(light) => Ok(add_color_m(reflected, add_color_m(ambient, light))),
        },
    }
}

pub fn shade_pixel(ray: &Vector, scene: &Scene, hit: &RayHit, reflect_count: u32) -> (r: Result<
    LinearColor,
    RenderError,
>)
    ensures
        r == shade_pixel_m(*ray, *scene, *hit, reflect_count),
    decreases depth_left(*scene, reflect_count), 1nat,
{
    let scolor = shade_scolor(hit);
    let ambient = scale_linear_color(&scolor, hit.surface.ambient);
    let reflected = match shade_reflect(ray, scene, hit, reflect_count) {
        Err(e) => {
            return Err(e);
        },
        Ok(c) => c,
    };
    let light = match shade_light(ray, scene, hit, &scolor) {
        Err(e) => {
            return Err(e);
        },
        Ok(c) => c,
    };
    Ok(add_linear_color(&reflected, &add_linear_color(&ambient, &light)))
}

/// What a ray sees: the shade of its nearest hit, or the background.
pub open spec fn ray_color_m(ray: Vector, scene: Scene, reflect_count: u32) -> Result<
    LinearColor,
    RenderError,
>
    decreases depth_left(scene, reflect_count), 2nat,
{
    match nearest_hit_m(scene.objects@, ray) {
        Err(e) => Err(e),
        Ok(hit_opt) => match hit_opt {
            Option::Some(hit) => shade_pixel_m(ray, scene, hit, reflect_count),
            Option::None => Ok(scene.background),
        },
    }
}

pub fn ray_color(ray: &Vector, scene: &Scene, reflect_count: u32) -> (r: Result<
    LinearColor,
    RenderError,
>)
    ensures
        r == ray_color_m(*ray, *scene, reflect_count),
    decreases depth_left(*scene, reflect_count), 2nat,
{
    match nearest_hit(ray, &scene.objects) {
        Err(e) => Err(e),
        Ok(hit_opt) => match hit_opt {
            Option::Some(hit) => shade_pixel(ray, scene, &hit, reflect_count),
            Option::None => Ok(scene.background),
        },
    }
}

/// One sub-pixel sample: the color seen by the camera ray through the
/// center of sub-cell `(iix, iiy)` of pixel `(x, y)` in a `w` by `h`
/// image.
#[verifier::opaque]
pub open spec fn sample_m(
    scene: Scene,
    w: u32,
    h: u32,
    x: u32,
    y: u32,
    iix: int,
    iiy: int,
) -> Result<LinearColor, RenderError> {
    let dx = div_m(fx(SCALE as int), from_int_m(w as int));
    let dy = div_m(fx(SCALE as int), from_int_m(h as int));
    let os2 = mul_m(from_int_m(scene.oversample as int), fx(20_000_000));
    let subdx = div_m(dx, os2);
    let subdy = div_m(dy, os2);
    let xc = sub_m(mul_m(from_int_m(x as int), dx), div_m(dx, fx(20_000_000)));
    let yc = sub_m(mul_m(from_int_m(y as int), dy), div_m(dy, fx(20_000_000)));
    let xt = add_m(xc, mul_m(subdx, from_int_m(1 + 2 * iix)));
    let yt = add_m(yc, mul_m(subdy, from_int_m(1 + 2 * iiy)));
    match camera_ray_m(scene.camera, xt, yt) {
        Err(e) => Err(e),
        Ok(ray) => ray_color_m(ray, scene, 0),
    }
}

/// The running sum of the first `k` sub-pixel samples, in the scan order
/// of the two sampling loops.
pub open spec fn sample_sum_m(
    scene: Scene,
    w: u32,
    h: u32,
    x: u32,
    y: u32,
    k: nat,
) -> Result<LinearColor, RenderError>
    decreases k,
{
    if k == 0 {
        Ok(black())
    } else {
        let n = scene.oversample as int;
        match sample_sum_m(scene, w, h, x, y, (k - 1) as nat) {
            Err(e) => Err(e),
            Ok(acc) => match sample_m(scene, w, h, x, y, ((k - 1) as int) / n, ((k - 1) as int) % n) {
                Err(e) => Err(e),
                Ok(s) => Ok(add_color_m(acc, s)),
            },
        }
    }
}

proof fn lemma_sample_sum_err_extends(scene: Scene, w: u32, h: u32, x: u32, y: u32, k: nat, k2: nat)
    requires
        k <= k2,
        sample_sum_m(scene, w, h, x, y, k) is Err,
    ensures
        sample_sum_m(scene, w, h, x, y, k2) == sample_sum_m(scene, w, h, x, y, k),
    decreases k2 - k,
{
    if k2 > k {
        lemma_sample_sum_err_extends(scene, w, h, x, y, k, (k2 - 1) as nat);
    }
}

/// One output pixel before encoding: the box-filter average of the
/// `oversample` by `oversample` sub-pixel samples.
pub open spec fn pixel_color_m(scene: Scene, w: u32, h: u32, x: u32, y: u32) -> Result<
    LinearColor,
    RenderError,
> {
    let n = scene.oversample as int;
    match sample_sum_m(scene, w, h, x, y, (n * n) as nat) {
        Err(e) => Err(e),
        Ok(pc) => Ok(scale_color_m(pc, div_m(fx(SCALE as int), from_int_m(sat64(n * n))))),
    }
}

#[verifier::loop_isolation(false)]
#[verifier::rlimit(100)]
#[verifier::spinoff_prover]
pub fn pixel_color(scene: &Scene, w: u32, h: u32, x: u32, y: u32) -> (r: Result<
    LinearColor,
    RenderError,
>)
    requires
        scene.oversample >= 1,
        w >= 1,
        h >= 1,
    ensures
        r == pixel_color_m(*scene, w, h, x, y),
{
    let ghost n_int: int = scene.oversample as int;
    proof {
        lemma_from_int_pos(w as int);
        lemma_from_int_pos(h as int);
        lemma_from_int_pos(scene.oversample as int);
        lemma_double_pos(from_int_m(scene.oversample as int));
    }
    let n: u32 = scene.oversample;
    let dx = fx_div(Fx { v: SCALE }, fx_from_int(w as i64));
    let dy = fx_div(Fx { v: SCALE }, fx_from_int(h as i64));
    let os2 = fx_mul(fx_from_int(n as i64), Fx { v: 20_000_000 });
    let subdx = fx_div(dx, os2);
    let subdy = fx_div(dy, os2);
    let xc = fx_sub(fx_mul(fx_from_int(x as i64), dx), fx_div(dx, Fx { v: 20_000_000 }));
    let yc = fx_sub(fx_mul(fx_from_int(y as i64), dy), fx_div(dy, Fx { v: 20_000_000 }));
    let mut pc = LinearColor { red: Fx { v: 0 }, green: Fx { v: 0 }, blue: Fx { v: 0 } };
    let mut iix: u32 = 0;
    while iix < n
        invariant
            0 <= iix <= n,
            Ok::<LinearColor, RenderError>(pc) == sample_sum_m(
                *scene,
                w,
                h,
                x,
                y,
                (iix as int * n_int) as nat,
            ),
        decreases n - iix,
    {
        let mut iiy: u32 = 0;
        while iiy < n
            invariant
                0 <= iiy <= n,
                iix < n,
                Ok::<LinearColor, RenderError>(pc) == sample_sum_m(
                    *scene,
                    w,
                    h,
                    x,
                    y,
                    (iix as int * n_int + iiy as int) as nat,
                ),
            decreases n - iiy,
        {
            let ghost k: int = iix as int * n_int + iiy as int;
            proof {
                reveal(sample_m);
                assert(0 <= k && k + 1 <= n_int * n_int) by (nonlinear_arith)
                    requires
                        0 <= iix as int,
                        (iix as int) < n_int,
                        0 <= iiy as int,
                        (iiy as int) < n_int,
                        k == iix as int * n_int + iiy as int,
                ;
                vstd::arithmetic::div_mod::lemma_fundamental_div_mod_converse(
                    k,
                    n_int,
                    iix as int,
                    iiy as int,
                );
            }
            let xt = fx_add(xc, fx_mul(subdx, fx_from_int(1 + 2 * (iix as i64))));
            let yt = fx_add(yc, fx_mul(subdy, fx_from_int(1 + 2 * (iiy as i64))));
            let rc = match camera_ray(&scene.camera, xt, yt) {
                Err(e) => {
                    proof {
                        lemma_sample_sum_err_extends(
                            *scene,
                            w,
                            h,
                            x,
                            y,
                            (k + 1) as nat,
                            (n_int * n_int) as nat,
                        );
                    }
                    return Err(e);
                },
                Ok(ray) => match ray_color(&ray, scene, 0) {
                    Err(e) => {
                        proof {
                            lemma_sample_sum_err_extends(
                                *scene,
                                w,
                                h,
                                x,
                                y,
                                (k + 1) as nat,
                                (n_int * n_int) as nat,
                            );
                        }
                        return Err(e);
                    },
                    Ok(c) => c,
                },
            };
            pc = add_linear_color(&pc, &rc);
            iiy = iiy + 1;
        }
        proof {
            assert((iix as int + 1) * n_int == iix as int * n_int + n_int) by (nonlinear_arith);
        }
        iix = iix + 1;
    }
    proof {
        assert((((n as u64) as int) * ((n as u64) as int)) < 0x10000000000000000int)
            by (nonlinear_arith)
            requires
                0 <= (n as u64) as int,
                ((n as u64) as int) < 4294967296int,
        ;
    }
    let n2u: u64 = (n as u64) * (n as u64);
    let n2c: i64 = if n2u > i64::MAX as u64 {
        i64::MAX
    } else {
        n2u as i64
    };
    proof {
        assert(n2u as int == n_int * n_int && n_int * n_int >= 1) by (nonlinear_arith)
            requires
                1 <= n_int < 4294967296,
                n2u as int == (n as u64) as int * (n as u64) as int,
                (n as u64) as int == n_int,
        ;
        assert(n2c as int == sat64(n_int * n_int));
        lemma_from_int_pos(n2c as int);
    }
    let scale_fx = fx_div(Fx { v: SCALE }, fx_from_int(n2c));
    Ok(scale_linear_color(&pc, scale_fx))
}

/// The three display bytes of one pixel.
pub open spec fn pixel_bytes_m(scene: Scene, w: u32, h: u32, x: u32, y: u32) -> Result<
    Seq<u8>,
    RenderError,
> {
    match pixel_color_m(scene, w, h, x, y) {
        Err(e) => Err(e),
        Ok(pc) => {
            let b = png_color_m(pc);
            Ok(seq![b.red, b.green, b.blue])
        },
    }
}

/// The bytes of the first `xcount` pixels of row `y`, left to right.
pub open spec fn row_m(scene: Scene, w: u32, h: u32, y: u32, xcount: nat) -> Result<
    Seq<u8>,
    RenderError,
>
    decreases xcount,
{
    if xcount == 0 {
        Ok(Seq::empty())
    } else {
        match row_m(scene, w, h, y, (xcount - 1) as nat) {
            Err(e) => Err(e),
            Ok(prefix) => match pixel_bytes_m(scene, w, h, (xcount - 1) as u32, y) {
                Err(e) => Err(e),
                Ok(b) => Ok(prefix + b),
            },
        }
    }
}

proof fn lemma_row_err_extends(scene: Scene, w: u32, h: u32, y: u32, k: nat, k2: nat)
    requires
        k <= k2,
        row_m(scene, w, h, y, k) is Err,
    ensures
        row_m(scene, w, h, y, k2) == row_m(scene, w, h, y, k),
    decreases k2 - k,
{
    if k2 > k {
        lemma_row_err_extends(scene, w, h, y, k, (k2 - 1) as nat);
    }
}

/// A completed row holds three bytes for each of its pixels.
pub proof fn lemma_row_m_len(scene: Scene, w: u32, h: u32, y: u32, xcount: nat)
    ensures
        match row_m(scene, w, h, y, xcount) {
            Ok(s) => s.len() == 3 * xcount,
            Err(_) => true,
        },
    decreases xcount,
{
    if xcount > 0 {
        lemma_row_m_len(scene, w, h, y, (xcount - 1) as nat);
    }
}

/// How an executable row result realizes a row model.
pub open spec fn row_matches(r: Result<Vec<u8>, RenderError>, m: Result<Seq<u8>, RenderError>) -> bool {
    match r {
        Ok(v) => m == Ok::<Seq<u8>, RenderError>(v@),
        Err(e) => m == Err::<Seq<u8>, RenderError>(e),
    }
}

/// Compute one row of the image as display bytes, left to right.
#[verifier::loop_isolation(false)]
pub fn render_into_line(scene: &Scene, imgx: u32, imgy: u32, y: u32) -> (r: Result<
    Vec<u8>,
    RenderError,
>)
    requires
        scene.oversample >= 1,
        imgx >= 1,
        imgy >= 1,
    ensures
        row_matches(r, row_m(*scene, imgx, imgy, y, imgx as nat)),
{
    let mut buf: Vec<u8> = Vec::new();
    let mut x: u32 = 0;
    while x < imgx
        invariant
            0 <= x <= imgx,
            row_m(*scene, imgx, imgy, y, x as nat) == Ok::<Seq<u8>, RenderError>(buf@),
        decreases imgx - x,
    {
        match pixel_color(scene, imgx, imgy, x, y) {
            Err(e) => {
                proof {
                    lemma_row_err_extends(*scene, imgx, imgy, y, (x + 1) as nat, imgx as nat);
                }
                return Err(e);
            },
            Ok(pc) => {
                let ghost before: Seq<u8> = buf@;
                let b = to_png_color(&pc);
                buf.push(b.red);
                buf.push(b.green);
                buf.push(b.blue);
                proof {
                    assert(buf@ =~= before + seq![b.red, b.green, b.blue]);
                }
            },
        }
        x = x + 1;
    }
    Ok(buf)
}

/// The bytes of the first `ycount` rows, top to bottom: the image in
/// row-major order.
pub open spec fn render_m(scene: Scene, w: u32, h: u32, ycount: nat) -> Result<Seq<u8>, RenderError>
    decreases ycount,
{
    if ycount == 0 {
        Ok(Seq::empty())
    } else {
        match render_m(scene, w, h, (ycount - 1) as nat) {
            Err(e) => Err(e),
            Ok(prefix) => match row_m(scene, w, h, (ycount - 1) as u32, w as nat) {
                Err(e) => Err(e),
                Ok(rb) => Ok(prefix + rb),
            },
        }
    }
}

proof fn lemma_render_err_extends(scene: Scene, w: u32, h: u32, k: nat, k2: nat)
    requires
        k <= k2,
        render_m(scene, w, h, k) is Err,
    ensures
        render_m(scene, w, h, k2) == render_m(scene, w, h, k),
    decreases k2 - k,
{
    if k2 > k {
        lemma_render_err_extends(scene, w, h, k, (k2 - 1) as nat);
    }
}

/// A completed image holds three bytes for each of its pixels.
#[verifier::rlimit(100)]
#[verifier::spinoff_prover]
pub proof fn lemma_render_m_len(scene: Scene, w: u32, h: u32, ycount: nat)
    ensures
        match render_m(scene, w, h, ycount) {
            Ok(s) => s.len() == 3 * w * ycount,
            Err(_) => true,
        },
    decreases ycount,
{
    if ycount > 0 {
        lemma_render_m_len(scene, w, h, (ycount - 1) as nat);
        lemma_row_m_len(scene, w, h, (ycount - 1) as u32, w as nat);
        match render_m(scene, w, h, (ycount - 1) as nat) {
            Ok(prefix) => {
                assert(prefix.len() == 3 * w * ((ycount - 1) as nat));
                match row_m(scene, w, h, (ycount - 1) as u32, w as nat) {
                    Ok(rb) => {
                        assert(rb.len() == 3 * (w as nat));
                        assert(render_m(scene, w, h, ycount) == Ok::<Seq<u8>, RenderError>(
                            prefix + rb,
                        ));
                        assert((prefix + rb).len() == prefix.len() + rb.len());
                        assert(3 * (w as int) * (ycount as int) == 3 * (w as int) * (ycount as int
                            - 1) + 3 * (w as int)) by (nonlinear_arith);
                    },
                    Err(_) => {},
                }
            },
            Err(_) => {},
        }
    }
}

proof fn lemma_row_m_pixel(scene: Scene, w: u32, h: u32, y: u32, xcount: nat, x: u32)
    requires
        (x as nat) < xcount,
        xcount <= w as nat,
        row_m(scene, w, h, y, xcount) is Ok,
    ensures
        pixel_bytes_m(scene, w, h, x, y) is Ok,
        row_m(scene, w, h, y, xcount)->Ok_0.subrange(3 * (x as int), 3 * (x as int) + 3)
            == pixel_bytes_m(scene, w, h, x, y)->Ok_0,
    decreases xcount,
{
    lemma_row_m_len(scene, w, h, y, (xcount - 1) as nat);
    let prefix = row_m(scene, w, h, y, (xcount - 1) as nat)->Ok_0;
    let b = pixel_bytes_m(scene, w, h, (xcount - 1) as u32, y)->Ok_0;
    let whole = row_m(scene, w, h, y, xcount)->Ok_0;
    assert(whole == prefix + b);
    assert(b.len() == 3);
    if x as nat == xcount - 1 {
        assert(whole.subrange(3 * (x as int), 3 * (x as int) + 3) =~= b);
    } else {
        lemma_row_m_pixel(scene, w, h, y, (xcount - 1) as nat, x);
        assert(whole.subrange(3 * (x as int), 3 * (x as int) + 3) =~= prefix.subrange(
            3 * (x as int),
            3 * (x as int) + 3,
        ));
    }
}

proof fn lemma_render_m_row(scene: Scene, w: u32, h: u32, ycount: nat, y: u32)
    requires
        (y as nat) < ycount,
        render_m(scene, w, h, ycount) is Ok,
    ensures
        row_m(scene, w, h, y, w as nat) is Ok,
        row_m(scene, w, h, y, w as nat)->Ok_0 == render_m(scene, w, h, ycount)->Ok_0.subrange(
            3 * (w as int) * (y as int),
            3 * (w as int) * (y as int) + 3 * (w as int),
        ),
    decreases ycount,
{
    lemma_render_m_len(scene, w, h, (ycount - 1) as nat);
    lemma_row_m_len(scene, w, h, (ycount - 1) as u32, w as nat);
    let prefix = render_m(scene, w, h, (ycount - 1) as nat)->Ok_0;
    let rb = row_m(scene, w, h, (ycount - 1) as u32, w as nat)->Ok_0;
    let whole = render_m(scene, w, h, ycount)->Ok_0;
    assert(whole == prefix + rb);
    if y as nat == ycount - 1 {
        assert(3 * (w as int) * (y as int) == prefix.len()) by (nonlinear_arith)
            requires
                prefix.len() == 3 * (w as int) * (ycount as int - 1),
                y as int == ycount as int - 1,
        ;
        assert(whole.subrange(
            3 * (w as int) * (y as int),
            3 * (w as int) * (y as int) + 3 * (w as int),
        ) =~= rb);
    } else {
        lemma_render_m_row(scene, w, h, (ycount - 1) as nat, y);
        assert(3 * (w as int) * (y as int) + 3 * (w as int) <= prefix.len()) by (nonlinear_arith)
            requires
                prefix.len() == 3 * (w as int) * (ycount as int - 1),
                (y as int) < ycount as int - 1,
                0 <= y as int,
                0 <= w as int,
        ;
        assert(whole.subrange(
            3 * (w as int) * (y as int),
            3 * (w as int) * (y as int) + 3 * (w as int),
        ) =~= prefix.subrange(
            3 * (w as int) * (y as int),
            3 * (w as int) * (y as int) + 3 * (w as int),
        ));
    }
}

/// Where each pixel stands in a completed image: the three display bytes
/// of pixel `(x, y)` are the bytes at offset `3 * (y * w + x)`, row-major
/// from the top left.
pub proof fn lemma_render_m_pixel(scene: Scene, w: u32, h: u32, x: u32, y: u32)
    requires
        x < w,
        y < h,
        render_m(scene, w, h, h as nat) is Ok,
    ensures
        pixel_bytes_m(scene, w, h, x, y) is Ok,
        render_m(scene, w, h, h as nat)->Ok_0.subrange(
            3 * ((y as int) * (w as int) + x as int),
            3 * ((y as int) * (w as int) + x as int) + 3,
        ) == pixel_bytes_m(scene, w, h, x, y)->Ok_0,
{
    lemma_render_m_row(scene, w, h, h as nat, y);
    lemma_row_m_pixel(scene, w, h, y, w as nat, x);
    lemma_row_m_len(scene, w, h, y, w as nat);
    lemma_render_m_len(scene, w, h, h as nat);
    let whole = render_m(scene, w, h, h as nat)->Ok_0;
    let rb = row_m(scene, w, h, y, w as nat)->Ok_0;
    let start = 3 * (w as int) * (y as int);
    assert(3 * ((y as int) * (w as int) + x as int) == start + 3 * (x as int))
        by (nonlinear_arith)
        requires
            start == 3 * (w as int) * (y as int),
    ;
    assert(start + 3 * (w as int) <= whole.len()) by (nonlinear_arith)
        requires
            whole.len() == 3 * (w as int) * (h as int),
            start == 3 * (w as int) * (y as int),
            (y as int) < h as int,
            0 <= y as int,
            0 <= w as int,
    ;
    assert(rb.subrange(3 * (x as int), 3 * (x as int) + 3) =~= whole.subrange(
        start + 3 * (x as int),
        start + 3 * (x as int) + 3,
    ));
}

/// How an executable render result realizes the image model.
pub open spec fn render_matches(r: Result<Vec<u8>, RenderError>, m: Result<
    Seq<u8>,
    RenderError,
>) -> bool {
    match r {
        Ok(v) => m == Ok::<Seq<u8>, RenderError>(v@),
        Err(e) => m == Err::<Seq<u8>, RenderError>(e),
    }
}

/// Relies on rayon: `into_par_iter().map(..).collect()` over a row index
/// range applies the closure to every index and collects the results of
/// this indexed iterator into a vector in index order; the closure calls
/// only the verified row renderer.
#[verifier::external_body]
fn par_render_rows(scene: &Scene, imgx: u32, imgy: u32) -> (rows: Vec<
    Result<Vec<u8>, RenderError>,
>)
    requires
        scene.oversample >= 1,
        imgx >= 1,
        imgy >= 1,
    ensures
        rows@.len() == imgy as int,
        forall|j: int|
            0 <= j < imgy as int ==> row_matches(
                rows@[j],
                row_m(*scene, imgx, imgy, j as u32, imgx as nat),
            ),
{
    (0..imgy).into_par_iter().map(|yy| render_into_line(scene, imgx, imgy, yy)).collect()
}

/// Render the scene into a dense `width` by `height` image of display
/// bytes, three per pixel in row-major order.  The two scheduling modes
/// meet the same contract, so their output is identical.
#[verifier::loop_isolation(false)]
#[verifier::rlimit(100)]
#[verifier::spinoff_prover]
pub fn render(scene: &Scene, imgx: u32, imgy: u32, parallel: bool) -> (r: Result<
    Vec<u8>,
    RenderError,
>)
    requires
        scene.oversample >= 1,
        imgx >= 1,
        imgy >= 1,
    ensures
        render_matches(r, render_m(*scene, imgx, imgy, imgy as nat)),
        r is Ok ==> r.unwrap()@.len() == 3 * imgx as int * imgy as int,
{
    proof {
        lemma_render_m_len(*scene, imgx, imgy, imgy as nat);
    }
    let mut buf: Vec<u8> = Vec::new();
    if parallel {
        let mut rows = par_render_rows(scene, imgx, imgy);
        let mut yy: u32 = 0;
        while yy < imgy
            invariant
                0 <= yy <= imgy,
                rows@.len() == imgy as int - yy as int,
                forall|j: int|
                    0 <= j < rows@.len() ==> row_matches(
                        rows@[j],
                        row_m(*scene, imgx, imgy, (yy as int + j) as u32, imgx as nat),
                    ),
                render_m(*scene, imgx, imgy, yy as nat) == Ok::<Seq<u8>, RenderError>(buf@),
            decreases imgy - yy,
        {
            let rr = rows.remove(0);
            match rr {
                Err(e) => {
                    proof {
                        lemma_render_err_extends(*scene, imgx, imgy, (yy + 1) as nat, imgy as nat);
                    }
                    return Err(e);
                },
                Ok(mut rowv) => {
                    buf.append(&mut rowv);
                },
            }
            yy = yy + 1;
        }
    } else {
        let mut yy: u32 = 0;
        while yy < imgy
            invariant
                0 <= yy <= imgy,
                render_m(*scene, imgx, imgy, yy as nat) == Ok::<Seq<u8>, RenderError>(buf@),
            decreases imgy - yy,
        {
            match render_into_line(scene, imgx, imgy, yy) {
                Err(e) => {
                    proof {
                        lemma_render_err_extends(*scene, imgx, imgy, (yy + 1) as nat, imgy as nat);
                    }
                    return Err(e);
                },
                Ok(mut rowv) => {
                    buf.append(&mut rowv);
                },
            }
            yy = yy + 1;
        }
    }
    Ok(buf)
}

/// In shadow there is no diffuse and no specular contribution: the shade
/// of an occluded hit is exactly the reflection term plus the ambient
/// term and nothing else.
pub proof fn lemma_shadow_pure_ambient_reflect(
    ray: Vector,
    scene: Scene,
    hit: RayHit,
    reflect_count: u32,
)
    requires
        light_vector_m(hit.hit_point, scene) == Ok::<Option<Vector>, RenderError>(
            Option::<Vector>::None,
        ),
    ensures
        shade_light_m(ray, scene, hit, shade_scolor_m(hit)) == Ok::<LinearColor, RenderError>(
            black(),
        ),
        match shade_reflect_m(ray, scene, hit, reflect_count) {
            Ok(reflected) => shade_pixel_m(ray, scene, hit, reflect_count) == Ok::<
                LinearColor,
                RenderError,
            >(
                add_color_m(
                    reflected,
                    add_color_m(scale_color_m(shade_scolor_m(hit), hit.surface.ambient), black()),
                ),
            ),
            Err(e) => shade_pixel_m(ray, scene, hit, reflect_count) == Err::<
                LinearColor,
                RenderError,
            >(e),
        },
{
}

/// When the first `k` sub-samples of a pixel all see one color `c`, the
/// running sum is exactly `k` copies of `c` per channel: small counts of a
/// moderate color cannot saturate.
#[verifier::rlimit(100)]
#[verifier::spinoff_prover]
proof fn lemma_sample_sum_const(scene: Scene, w: u32, h: u32, x: u32, y: u32, k: nat, c: LinearColor)
    requires
        scene.oversample >= 1,
        k <= 16,
        k as int <= (scene.oversample as int) * (scene.oversample as int),
        -500_000_000_000_000_000 <= c.red.v <= 500_000_000_000_000_000,
        -500_000_000_000_000_000 <= c.green.v <= 500_000_000_000_000_000,
        -500_000_000_000_000_000 <= c.blue.v <= 500_000_000_000_000_000,
        forall|iix: int, iiy: int|
            0 <= iix < scene.oversample as int && 0 <= iiy < scene.oversample as int
                ==> #[trigger] sample_m(scene, w, h, x, y, iix, iiy) == Ok::<
                LinearColor,
                RenderError,
            >(c),
    ensures
        sample_sum_m(scene, w, h, x, y, k) == Ok::<LinearColor, RenderError>(
            LinearColor {
                red: fx(k * c.red.v),
                green: fx(k * c.green.v),
                blue: fx(k * c.blue.v),
            },
        ),
    decreases k,
{
    let n = scene.oversample as int;
    if k == 0 {
    } else {
        lemma_sample_sum_const(scene, w, h, x, y, (k - 1) as nat, c);
        let i = k as int - 1;
        vstd::arithmetic::div_mod::lemma_fundamental_div_mod(i, n);
        vstd::arithmetic::div_mod::lemma_mod_bound(i, n);
        let q = i / n;
        let r = i % n;
        assert(0 <= q && q < n) by (nonlinear_arith)
            requires
                i == n * q + r,
                0 <= r < n,
                0 <= i,
                i < n * n,
                n >= 1,
        ;
        assert(sample_m(scene, w, h, x, y, q, r) == Ok::<LinearColor, RenderError>(c));
        assert((k - 1) * c.red.v as int + c.red.v as int == k * c.red.v as int) by (nonlinear_arith);
        assert((k - 1) * c.green.v as int + c.green.v as int == k * c.green.v as int)
            by (nonlinear_arith);
        assert((k - 1) * c.blue.v as int + c.blue.v as int == k * c.blue.v as int)
            by (nonlinear_arith);
        assert(-9_000_000_000_000_000_000 <= (k - 1) * c.red.v as int <= 9_000_000_000_000_000_000
            && -9_000_000_000_000_000_000 <= k * c.red.v as int <= 9_000_000_000_000_000_000)
            by (nonlinear_arith)
            requires
                0 <= k <= 16,
                -500_000_000_000_000_000 <= c.red.v as int <= 500_000_000_000_000_000,
        ;
        assert(-9_000_000_000_000_000_000 <= (k - 1) * c.green.v as int
            <= 9_000_000_000_000_000_000 && -9_000_000_000_000_000_000 <= k * c.green.v as int
            <= 9_000_000_000_000_000_000) by (nonlinear_arith)
            requires
                0 <= k <= 16,
                -500_000_000_000_000_000 <= c.green.v as int <= 500_000_000_000_000_000,
        ;
        assert(-9_000_000_000_000_000_000 <= (k - 1) * c.blue.v as int <= 9_000_000_000_000_000_000
            && -9_000_000_000_000_000_000 <= k * c.blue.v as int <= 9_000_000_000_000_000_000)
            by (nonlinear_arith)
            requires
                0 <= k <= 16,
                -500_000_000_000_000_000 <= c.blue.v as int <= 500_000_000_000_000_000,
        ;
        let acc = LinearColor {
            red: fx((k - 1) * c.red.v),
            green: fx((k - 1) * c.green.v),
            blue: fx((k - 1) * c.blue.v),
        };
        assert(sample_sum_m(scene, w, h, x, y, (k - 1) as nat) == Ok::<LinearColor, RenderError>(
            acc,
        ));
        assert(add_m(acc.red, c.red) == fx(k * c.red.v));
        assert(add_m(acc.green, c.green) == fx(k * c.green.v));
        assert(add_m(acc.blue, c.blue) == fx(k * c.blue.v));
        assert(add_color_m(acc, c) == (LinearColor {
            red: fx(k * c.red.v),
            green: fx(k * c.green.v),
            blue: fx(k * c.blue.v),
        }));
        assert(sample_sum_m(scene, w, h, x, y, k) == Ok::<LinearColor, RenderError>(
            add_color_m(acc, c),
        ));
    }
}

/// On a region with no detail the box filter changes nothing: when every
/// sub-sample of a pixel sees the background, the pixel is exactly the
/// background color, both without oversampling and at an oversampling of
/// four, whose sixteen sub-samples average back out evenly.
pub proof fn lemma_oversample_flat_background(
    scene1: Scene,
    scene4: Scene,
    w: u32,
    h: u32,
    x: u32,
    y: u32,
)
    requires
        scene1.oversample == 1,
        scene4.oversample == 4,
        scene1.background == scene4.background,
        -500_000_000_000_000_000 <= scene1.background.red.v <= 500_000_000_000_000_000,
        -500_000_000_000_000_000 <= scene1.background.green.v <= 500_000_000_000_000_000,
        -500_000_000_000_000_000 <= scene1.background.blue.v <= 500_000_000_000_000_000,
        forall|iix: int, iiy: int|
            0 <= iix < 1 && 0 <= iiy < 1 ==> #[trigger] sample_m(scene1, w, h, x, y, iix, iiy)
                == Ok::<LinearColor, RenderError>(scene1.background),
        forall|iix: int, iiy: int|
            0 <= iix < 4 && 0 <= iiy < 4 ==> #[trigger] sample_m(scene4, w, h, x, y, iix, iiy)
                == Ok::<LinearColor, RenderError>(scene4.background),
    ensures
        pixel_color_m(scene1, w, h, x, y) == Ok::<LinearColor, RenderError>(scene1.background),
        pixel_color_m(scene4, w, h, x, y) == Ok::<LinearColor, RenderError>(scene1.background),
{
    let bg = scene1.background;
    lemma_sample_sum_const(scene1, w, h, x, y, 1, bg);
    lemma_sample_sum_const(scene4, w, h, x, y, 16, bg);
    lemma_tdiv_mul_cancel(SCALE as int, SCALE as int);
    assert((SCALE as int) * (SCALE as int) == 625_000 * 160_000_000) by (nonlinear_arith)
        requires
            SCALE == 10_000_000i64,
    ;
    lemma_tdiv_mul_cancel(625_000, 160_000_000);
    lemma_tdiv_mul_cancel(bg.red.v as int, SCALE as int);
    lemma_tdiv_mul_cancel(bg.green.v as int, SCALE as int);
    lemma_tdiv_mul_cancel(bg.blue.v as int, SCALE as int);
    assert(16 * bg.red.v as int * 625_000 == bg.red.v as int * (SCALE as int))
        by (nonlinear_arith)
        requires
            SCALE == 10_000_000i64,
    ;
    assert(16 * bg.green.v as int * 625_000 == bg.green.v as int * (SCALE as int))
        by (nonlinear_arith)
        requires
            SCALE == 10_000_000i64,
    ;
    assert(16 * bg.blue.v as int * 625_000 == bg.blue.v as int * (SCALE as int))
        by (nonlinear_arith)
        requires
            SCALE == 10_000_000i64,
    ;
}

/// When the first `k` sub-samples of an oversampled-by-four pixel all
/// succeed with channels between two bounds, the running sum stays
/// between the summed bounds; moderate bounds cannot saturate.
#[verifier::rlimit(100)]
#[verifier::spinoff_prover]
proof fn lemma_sample_sum_bounded(
    scene: Scene,
    w: u32,
    h: u32,
    x: u32,
    y: u32,
    k: nat,
    lo: LinearColor,
    hi: LinearColor,
)
    requires
        scene.oversample == 4,
        k <= 16,
        -500_000_000_000_000_000 <= lo.red.v <= hi.red.v <= 500_000_000_000_000_000,
        -500_000_000_000_000_000 <= lo.green.v <= hi.green.v <= 500_000_000_000_000_000,
        -500_000_000_000_000_000 <= lo.blue.v <= hi.blue.v <= 500_000_000_000_000_000,
        forall|iix: int, iiy: int|
            0 <= iix < 4 && 0 <= iiy < 4 ==> match #[trigger] sample_m(
                scene,
                w,
                h,
                x,
                y,
                iix,
                iiy,
            ) {
                Ok(s) => lo.red.v <= s.red.v <= hi.red.v && lo.green.v <= s.green.v <= hi.green.v
                    && lo.blue.v <= s.blue.v <= hi.blue.v,
                Err(_) => false,
            },
    ensures
        match sample_sum_m(scene, w, h, x, y, k) {
            Ok(sum) => k * lo.red.v <= sum.red.v <= k * hi.red.v && k * lo.green.v <= sum.green.v
                <= k * hi.green.v && k * lo.blue.v <= sum.blue.v <= k * hi.blue.v,
            Err(_) => false,
        },
    decreases k,
{
    let n = scene.oversample as int;
    if k == 0 {
    } else {
        lemma_sample_sum_bounded(scene, w, h, x, y, (k - 1) as nat, lo, hi);
        let i = k as int - 1;
        vstd::arithmetic::div_mod::lemma_fundamental_div_mod(i, n);
        vstd::arithmetic::div_mod::lemma_mod_bound(i, n);
        let q = i / n;
        let r = i % n;
        assert(0 <= q && q < n) by (nonlinear_arith)
            requires
                i == n * q + r,
                0 <= r < n,
                0 <= i,
                i < n * n,
                n >= 1,
        ;
        assert(match sample_m(scene, w, h, x, y, q, r) {
            Ok(s) => lo.red.v <= s.red.v <= hi.red.v && lo.green.v <= s.green.v <= hi.green.v
                && lo.blue.v <= s.blue.v <= hi.blue.v,
            Err(_) => false,
        });
        assert((k - 1) * lo.red.v as int + lo.red.v as int == k * lo.red.v as int
            && (k - 1) * hi.red.v as int + hi.red.v as int == k * hi.red.v as int && (k - 1)
            * lo.green.v as int + lo.green.v as int == k * lo.green.v as int && (k - 1)
            * hi.green.v as int + hi.green.v as int == k * hi.green.v as int && (k - 1)
            * lo.blue.v as int + lo.blue.v as int == k * lo.blue.v as int && (k - 1)
            * hi.blue.v as int + hi.blue.v as int == k * hi.blue.v as int) by (nonlinear_arith);
        assert(forall|c: int, kc: int|
            -500_000_000_000_000_000 <= c <= 500_000_000_000_000_000 && 0 <= kc <= 16
                ==> -9_000_000_000_000_000_000 <= #[trigger] (kc * c)
                <= 9_000_000_000_000_000_000) by (nonlinear_arith);
    }
}

/// On an edge the box filter interpolates: when every sub-sample of an
/// oversampled-by-four pixel succeeds and each channel lies between two
/// bounds, the averaged pixel's channel lies between the same bounds.
pub proof fn lemma_oversample_between_extremes(
    scene: Scene,
    w: u32,
    h: u32,
    x: u32,
    y: u32,
    lo: LinearColor,
    hi: LinearColor,
)
    requires
        scene.oversample == 4,
        -500_000_000_000_000_000 <= lo.red.v <= hi.red.v <= 500_000_000_000_000_000,
        -500_000_000_000_000_000 <= lo.green.v <= hi.green.v <= 500_000_000_000_000_000,
        -500_000_000_000_000_000 <= lo.blue.v <= hi.blue.v <= 500_000_000_000_000_000,
        forall|iix: int, iiy: int|
            0 <= iix < 4 && 0 <= iiy < 4 ==> match #[trigger] sample_m(
                scene,
                w,
                h,
                x,
                y,
                iix,
                iiy,
            ) {
                Ok(s) => lo.red.v <= s.red.v <= hi.red.v && lo.green.v <= s.green.v <= hi.green.v
                    && lo.blue.v <= s.blue.v <= hi.blue.v,
                Err(_) => false,
            },
    ensures
        match pixel_color_m(scene, w, h, x, y) {
            Ok(pc) => lo.red.v <= pc.red.v <= hi.red.v && lo.green.v <= pc.green.v <= hi.green.v
                && lo.blue.v <= pc.blue.v <= hi.blue.v,
            Err(_) => false,
        },
{
    lemma_sample_sum_bounded(scene, w, h, x, y, 16, lo, hi);
    let sc = SCALE as int;
    // the averaging factor is exactly one sixteenth
    assert(sc * sc == 625_000 * (16 * sc)) by (nonlinear_arith)
        requires
            sc == 10_000_000,
    ;
    lemma_tdiv_mul_cancel2(625_000, 16 * sc, sc * sc);
    let sum = sample_sum_m(scene, w, h, x, y, 16)->Ok_0;
    // scaling by it divides the channel sums by sixteen
    lemma_tdiv_scale_cancel(sum.red.v as int, 16, 625_000);
    lemma_tdiv_scale_cancel(sum.green.v as int, 16, 625_000);
    lemma_tdiv_scale_cancel(sum.blue.v as int, 16, 625_000);
    assert(sum.red.v as int * 625_000 == (sum.red.v as int) * 625_000 && 16 * 625_000 == sc);
    // dividing the summed bounds by sixteen recovers the bounds
    lemma_tdiv_mul_cancel(lo.red.v as int, 16);
    lemma_tdiv_mul_cancel(hi.red.v as int, 16);
    lemma_tdiv_mul_cancel(lo.green.v as int, 16);
    lemma_tdiv_mul_cancel(hi.green.v as int, 16);
    lemma_tdiv_mul_cancel(lo.blue.v as int, 16);
    lemma_tdiv_mul_cancel(hi.blue.v as int, 16);
    assert(16 * lo.red.v as int == (lo.red.v as int) * 16 && 16 * hi.red.v as int == (
    hi.red.v as int) * 16 && 16 * lo.green.v as int == (lo.green.v as int) * 16 && 16
        * hi.green.v as int == (hi.green.v as int) * 16 && 16 * lo.blue.v as int == (
    lo.blue.v as int) * 16 && 16 * hi.blue.v as int == (hi.blue.v as int) * 16);
    // and truncated division is monotone between them
    lemma_tdiv_ordered(16 * lo.red.v as int, sum.red.v as int, 16);
    lemma_tdiv_ordered(sum.red.v as int, 16 * hi.red.v as int, 16);
    lemma_tdiv_ordered(16 * lo.green.v as int, sum.green.v as int, 16);
    lemma_tdiv_ordered(sum.green.v as int, 16 * hi.green.v as int, 16);
    lemma_tdiv_ordered(16 * lo.blue.v as int, sum.blue.v as int, 16);
    lemma_tdiv_ordered(sum.blue.v as int, 16 * hi.blue.v as int, 16);
}

/// Rendering is deterministic in everything but scheduling: any two
/// results that meet the render contract for the same scene and size are
/// the same image byte for byte, so the parallel and the sequential mode
/// cannot differ.
pub proof fn lemma_render_mode_agnostic(
    r1: Result<Vec<u8>, RenderError>,
    r2: Result<Vec<u8>, RenderError>,
    scene: Scene,
    w: u32,
    h: u32,
)
    requires
        render_matches(r1, render_m(scene, w, h, h as nat)),
        render_matches(r2, render_m(scene, w, h, h as nat)),
    ensures
        match (r1, r2) {
            (Ok(a), Ok(b)) => a@ == b@,
            (Err(a), Err(b)) => a == b,
            _ => false,
        },
{
}

} // verus!
