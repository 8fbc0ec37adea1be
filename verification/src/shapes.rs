//! The shape primitives and their ray intersection tests.

use vstd::prelude::*;

use crate::fixed::Fx;
use crate::fixed::SCALE;
use crate::fixed::abs_m;
use crate::fixed::div_m;
use crate::fixed::div_v;
use crate::fixed::fx;
use crate::fixed::lemma_sqrt_floor_is;
use crate::fixed::lemma_tdiv_mul_cancel;
use crate::fixed::lemma_tdiv_mul_cancel2;
use crate::fixed::mul_v;
use crate::fixed::neg_v;
use crate::fixed::sqrt_v;
use crate::fixed::sub_v;
use crate::fixed::fx_abs;
use crate::fixed::fx_div;
use crate::fixed::fx_mul;
use crate::fixed::fx_neg;
use crate::fixed::fx_sqrt;
use crate::fixed::fx_sub;
use crate::fixed::mul_m;
use crate::fixed::neg_m;
use crate::fixed::sqrt_m;
use crate::fixed::sub_m;
use crate::geometry::EPSILON;
use crate::geometry::Point;
use crate::geometry::Vector;
use crate::geometry::dotp;
use crate::geometry::dotp_m;
use crate::geometry::lenp;
use crate::geometry::lenp_m;
use crate::geometry::normalizep;
use crate::geometry::normalizep_m;
use crate::geometry::ray_location;
use crate::geometry::ray_location_m;
use crate::geometry::subp;
use crate::geometry::subp_m;
use crate::render::Hittable;
use crate::render::RayHit;
use crate::render::RenderError;
use crate::render::Surface;

verus! {

/// A sphere of a given center and radius.
#[derive(Clone, Copy, PartialEq, Eq, Structural, Debug)]
pub struct Sphere {
    pub center: Point,
    pub r: Fx,
    pub surface: Surface,
}

/// An infinite plane through `p0` with a fixed normal.
#[derive(Clone, Copy, PartialEq, Eq, Structural, Debug)]
pub struct Plane {
    pub normal: Point,
    pub p0: Point,
    pub surface: Surface,
}

/// The closed set of shapes a scene can hold.
#[derive(Clone, Copy, PartialEq, Eq, Structural, Debug)]
pub enum Shape {
    Sphere(Sphere),
    Plane(Plane),
}

/// The sphere test solves the ray-sphere quadratic and always reports the
/// near root, even a negative one behind the ray's start; a negative
/// discriminant or a degenerate zero direction is a miss.  The hit fails
/// over to an error only if the hit point falls so close to the center
/// that no outward normal can be formed.
pub open spec fn sphere_hit_m(s: Sphere, ray: Vector) -> Result<Option<RayHit>, RenderError> {
    let oc = subp_m(ray.start, s.center);
    let a = dotp_m(ray.delta, ray.delta);
    let b = mul_m(fx(20_000_000), dotp_m(oc, ray.delta));
    let c = sub_m(dotp_m(oc, oc), mul_m(s.r, s.r));
    let discriminant = sub_m(mul_m(b, b), mul_m(mul_m(fx(40_000_000), a), c));
    if discriminant.v < 0 {
        Ok(None)
    } else {
        let denom = mul_m(fx(20_000_000), a);
        if denom.v == 0 {
            Ok(None)
        } else {
            let t = div_m(sub_m(neg_m(b), sqrt_m(discriminant)), denom);
            let hit_point = ray_location_m(ray, t);
            let nvec = subp_m(hit_point, s.center);
            if lenp_m(nvec).v < EPSILON {
                Err(RenderError::DegenerateVector)
            } else {
                Ok(
                    Some(
                        RayHit {
                            distance: t,
                            hit_point,
                            normal: normalizep_m(nvec),
                            surface: s.surface,
                        },
                    ),
                )
            }
        }
    }
}

/// The plane test rejects near-parallel rays, and hits behind or at the
/// start (within the tolerance) are discarded to avoid self-shadowing.
/// The stored normal is reported unchanged, never flipped toward the ray.
pub open spec fn plane_hit_m(p: Plane, ray: Vector) -> Result<Option<RayHit>, RenderError> {
    let denom = dotp_m(p.normal, ray.delta);
    if abs_m(denom).v < EPSILON {
        Ok(None)
    } else {
        let p0l0 = subp_m(p.p0, ray.start);
        let t = div_m(dotp_m(p0l0, p.normal), denom);
        if t.v <= EPSILON {
            Ok(None)
        } else {
            Ok(
                Some(
                    RayHit {
                        distance: t,
                        hit_point: ray_location_m(ray, t),
                        normal: p.normal,
                        surface: p.surface,
                    },
                ),
            )
        }
    }
}

pub open spec fn shape_hit_m(s: Shape, ray: Vector) -> Result<Option<RayHit>, RenderError> {
    match s {
        Shape::Sphere(sp) => sphere_hit_m(sp, ray),
        Shape::Plane(pl) => plane_hit_m(pl, ray),
    }
}

/// Sphere self-consistency: a ray whose direction is exactly unit length,
/// aimed exactly at the center of a unit sphere from `k` whole units away,
/// solves the quadratic without any rounding, and the reported hit
/// distance is exactly `k - 1` units: the center distance minus the
/// radius.  Only the degenerate-normal failure is left open.
#[verifier::rlimit(100)]
#[verifier::spinoff_prover]
pub proof fn lemma_sphere_aimed_at_center(s: Sphere, ray: Vector, k: int)
    requires
        2 <= k <= 30_000,
        s.r == fx(SCALE as int),
        dotp_m(ray.delta, ray.delta) == fx(SCALE as int),
        dotp_m(subp_m(ray.start, s.center), ray.delta) == fx(-k * (SCALE as int)),
        dotp_m(subp_m(ray.start, s.center), subp_m(ray.start, s.center)) == fx(
            k * k * (SCALE as int),
        ),
    ensures
        match sphere_hit_m(s, ray) {
            Ok(hit_opt) => match hit_opt {
                Option::Some(h) => h.distance == fx((k - 1) * (SCALE as int)),
                Option::None => false,
            },
            Err(_) => true,
        },
{
    let sc = SCALE as int;
    let kk = k * k;
    assert(4 <= kk <= 900_000_000) by (nonlinear_arith)
        requires
            2 <= k <= 30_000,
            kk == k * k,
    ;
    // b: doubling the aimed dot product is exact
    assert((2 * sc) * (-k * sc) == ((-2 * k) * sc) * sc) by (nonlinear_arith);
    lemma_tdiv_mul_cancel((-2 * k) * sc, sc);
    assert(mul_v(2 * sc, -k * sc) == (-2 * k) * sc);
    // the radius squared is exactly one
    lemma_tdiv_mul_cancel(sc, sc);
    assert(mul_v(sc, sc) == sc);
    // b squared
    assert(((-2 * k) * sc) * ((-2 * k) * sc) == ((4 * kk) * sc) * sc) by (nonlinear_arith)
        requires
            kk == k * k,
    ;
    lemma_tdiv_mul_cancel((4 * kk) * sc, sc);
    assert(mul_v((-2 * k) * sc, (-2 * k) * sc) == (4 * kk) * sc);
    // four times a times c
    lemma_tdiv_mul_cancel(4 * sc, sc);
    assert((4 * sc) * sc == (4 * sc) * sc);
    assert(mul_v(4 * sc, sc) == 4 * sc);
    assert((4 * sc) * (kk * sc - sc) == ((4 * kk) * sc - 4 * sc) * sc) by (nonlinear_arith)
        requires
            kk == k * k,
    ;
    lemma_tdiv_mul_cancel((4 * kk) * sc - 4 * sc, sc);
    assert(mul_v(4 * sc, kk * sc - sc) == (4 * kk) * sc - 4 * sc);
    // the sum of squares hypothesis names the same product
    assert((k * k) * sc == kk * sc);
    // the discriminant collapses to exactly four
    assert(sub_v((4 * kk) * sc, (4 * kk) * sc - 4 * sc) == 4 * sc);
    // its square root is exactly two
    assert((2 * sc) * (2 * sc) <= (4 * sc) * sc && (4 * sc) * sc < (2 * sc + 1) * (2 * sc + 1))
        by (nonlinear_arith)
        requires
            sc == 10_000_000,
    ;
    lemma_sqrt_floor_is((4 * sc) * sc, 2 * sc);
    assert(sqrt_v(4 * sc) == 2 * sc);
    // the denominator is exactly two
    lemma_tdiv_mul_cancel(2 * sc, sc);
    assert(mul_v(2 * sc, sc) == 2 * sc);
    // and the quotient is exactly k - 1
    assert(neg_v((-2 * k) * sc) == (2 * k) * sc) by (nonlinear_arith)
        requires
            2 <= k <= 30_000,
            sc == 10_000_000,
    ;
    assert(sub_v((2 * k) * sc, 2 * sc) == ((2 * k) - 2) * sc) by (nonlinear_arith)
        requires
            2 <= k <= 30_000,
            sc == 10_000_000,
    ;
    assert((((2 * k) - 2) * sc) * sc == ((k - 1) * sc) * (2 * sc)) by (nonlinear_arith);
    lemma_tdiv_mul_cancel2((k - 1) * sc, 2 * sc, (((2 * k) - 2) * sc) * sc);
    assert(div_v(((2 * k) - 2) * sc, 2 * sc) == (k - 1) * sc);
}

impl Hittable for Sphere {
    open spec fn hit_m(&self, ray: Vector) -> Result<Option<RayHit>, RenderError> {
        sphere_hit_m(*self, ray)
    }

    fn hit_test(&self, ray: &Vector) -> (r: Result<Option<RayHit>, RenderError>) {
        let oc = subp(ray.start, self.center);
        let a = dotp(ray.delta, ray.delta);
        let b = fx_mul(Fx { v: 20_000_000 }, dotp(oc, ray.delta));
        let c = fx_sub(dotp(oc, oc), fx_mul(self.r, self.r));
        let discriminant = fx_sub(fx_mul(b, b), fx_mul(fx_mul(Fx { v: 40_000_000 }, a), c));
        if discriminant.v < 0 {
            Ok(None)
        } else {
            let denom = fx_mul(Fx { v: 20_000_000 }, a);
            if denom.v == 0 {
                Ok(None)
            } else {
                let t = fx_div(fx_sub(fx_neg(b), fx_sqrt(discriminant)), denom);
                let hit_point = ray_location(ray, t);
                let nvec = subp(hit_point, self.center);
                if lenp(nvec).v < EPSILON {
                    Err(RenderError::DegenerateVector)
                } else {
                    Ok(
                        Some(
                            RayHit {
                                distance: t,
                                hit_point,
                                normal: normalizep(nvec),
                                surface: self.surface,
                            },
                        ),
                    )
                }
            }
        }
    }
}

impl Hittable for Plane {
    open spec fn hit_m(&self, ray: Vector) -> Result<Option<RayHit>, RenderError> {
        plane_hit_m(*self, ray)
    }

    fn hit_test(&self, ray: &Vector) -> (r: Result<Option<RayHit>, RenderError>) {
        let denom = dotp(self.normal, ray.delta);
        if fx_abs(denom).v < EPSILON {
            Ok(None)
        } else {
            let p0l0 = subp(self.p0, ray.start);
            let t = fx_div(dotp(p0l0, self.normal), denom);
            if t.v <= EPSILON {
                Ok(None)
            } else {
                Ok(
                    Some(
                        RayHit {
                            distance: t,
                            hit_point: ray_location(ray, t),
                            normal: self.normal,
                            surface: self.surface,
                        },
                    ),
                )
            }
        }
    }
}

impl Hittable for Shape {
    open spec fn hit_m(&self, ray: Vector) -> Result<Option<RayHit>, RenderError> {
        shape_hit_m(*self, ray)
    }

    fn hit_test(&self, ray: &Vector) -> (r: Result<Option<RayHit>, RenderError>) {
        match self {
            Shape::Sphere(sp) => sp.hit_test(ray),
            Shape::Plane(pl) => pl.hit_test(ray),
        }
    }
}

} // verus!
