//! Points, rays, and the vector arithmetic of the renderer.
//!
//! Every executable operation is proved equal to a spec-level model built
//! from the exact fixed-point scalar models.

use vstd::prelude::*;

use crate::fixed::Fx;
use crate::fixed::SCALE;
use crate::fixed::add_m;
use crate::fixed::add_v;
use crate::fixed::div_m;
use crate::fixed::iabs;
use crate::fixed::lemma_div_v_near_identity;
use crate::fixed::lemma_sqrt_floor_exists;
use crate::fixed::mul_v;
use crate::fixed::sqrt_floor;
use crate::fixed::tdiv;
use crate::fixed::fx_add;
use crate::fixed::fx_div;
use crate::fixed::fx_mul;
use crate::fixed::fx_neg;
use crate::fixed::fx_sqrt;
use crate::fixed::fx_sub;
use crate::fixed::lemma_tdiv_mul_cancel;
use crate::fixed::mul_m;
use crate::fixed::neg_m;
use crate::fixed::sqrt_m;
use crate::fixed::sub_m;

verus! {

/// The single tolerance constant, in raw scalar units: near-zero lengths,
/// near-parallel plane tests and self-intersections are all cut off here.
pub const EPSILON: i64 = 1_000;

/// A location, or a displacement, in the scene.
#[derive(Clone, Copy, PartialEq, Eq, Structural, Debug)]
pub struct Point {
    pub x: Fx,
    pub y: Fx,
    pub z: Fx,
}

/// A ray: where it starts and which way it runs.
#[derive(Clone, Copy, PartialEq, Eq, Structural, Debug)]
pub struct Vector {
    pub start: Point,
    pub delta: Point,
}

pub open spec fn addp_m(a: Point, b: Point) -> Point {
    Point { x: add_m(a.x, b.x), y: add_m(a.y, b.y), z: add_m(a.z, b.z) }
}

pub open spec fn subp_m(a: Point, b: Point) -> Point {
    Point { x: sub_m(a.x, b.x), y: sub_m(a.y, b.y), z: sub_m(a.z, b.z) }
}

pub open spec fn negp_m(a: Point) -> Point {
    Point { x: neg_m(a.x), y: neg_m(a.y), z: neg_m(a.z) }
}

pub open spec fn scalep_m(a: Point, t: Fx) -> Point {
    Point { x: mul_m(a.x, t), y: mul_m(a.y, t), z: mul_m(a.z, t) }
}

pub open spec fn dotp_m(a: Point, b: Point) -> Fx {
    add_m(add_m(mul_m(a.x, b.x), mul_m(a.y, b.y)), mul_m(a.z, b.z))
}

pub open spec fn lenp_m(a: Point) -> Fx {
    sqrt_m(dotp_m(a, a))
}

pub open spec fn normalizep_m(a: Point) -> Point {
    let len = lenp_m(a);
    Point { x: div_m(a.x, len), y: div_m(a.y, len), z: div_m(a.z, len) }
}

/// Where a ray is after running a parameter `t` from its start.
pub open spec fn ray_location_m(ray: Vector, t: Fx) -> Point {
    addp_m(ray.start, scalep_m(ray.delta, t))
}

pub fn addp(pt0: Point, pt1: Point) -> (r: Point)
    ensures
        r == addp_m(pt0, pt1),
{
    Point { x: fx_add(pt0.x, pt1.x), y: fx_add(pt0.y, pt1.y), z: fx_add(pt0.z, pt1.z) }
}

pub fn subp(pt0: Point, pt1: Point) -> (r: Point)
    ensures
        r == subp_m(pt0, pt1),
{
    Point { x: fx_sub(pt0.x, pt1.x), y: fx_sub(pt0.y, pt1.y), z: fx_sub(pt0.z, pt1.z) }
}

pub fn negp(pt: Point) -> (r: Point)
    ensures
        r == negp_m(pt),
{
    Point { x: fx_neg(pt.x), y: fx_neg(pt.y), z: fx_neg(pt.z) }
}

pub fn scalep(pt: Point, t: Fx) -> (r: Point)
    ensures
        r == scalep_m(pt, t),
{
    Point { x: fx_mul(pt.x, t), y: fx_mul(pt.y, t), z: fx_mul(pt.z, t) }
}

pub fn dotp(pt0: Point, pt1: Point) -> (r: Fx)
    ensures
        r == dotp_m(pt0, pt1),
{
    fx_add(
        fx_add(fx_mul(pt0.x, pt1.x), fx_mul(pt0.y, pt1.y)),
        fx_mul(pt0.z, pt1.z),
    )
}

pub fn lenp(pt: Point) -> (r: Fx)
    ensures
        r == lenp_m(pt),
{
    fx_sqrt(dotp(pt, pt))
}

/// Scale a vector to unit length.  Callers must keep clear of near-zero
/// input: a length under the tolerance is a defect in scene data, and the
/// engine reports it as an error before ever reaching this point.
pub fn normalizep(pt: Point) -> (r: Point)
    requires
        lenp_m(pt).v >= EPSILON,
    ensures
        r == normalizep_m(pt),
{
    let len = lenp(pt);
    Point { x: fx_div(pt.x, len), y: fx_div(pt.y, len), z: fx_div(pt.z, len) }
}

pub fn ray_location(ray: &Vector, t: Fx) -> (r: Point)
    ensures
        r == ray_location_m(*ray, t),
{
    addp(ray.start, scalep(ray.delta, t))
}

/// Normalization is the identity on a vector that is already exactly
/// unit-length: dividing each coordinate by a length of exactly one
/// returns the coordinate unchanged.
pub proof fn lemma_normalize_unit(p: Point)
    requires
        lenp_m(p).v == SCALE,
    ensures
        normalizep_m(p) == p,
{
    lemma_tdiv_mul_cancel(p.x.v as int, SCALE as int);
    lemma_tdiv_mul_cancel(p.y.v as int, SCALE as int);
    lemma_tdiv_mul_cancel(p.z.v as int, SCALE as int);
}

/// In a saturating sum of three nonnegative parts that stays under a
/// bound below the ceiling, each part is under the bound too.
proof fn lemma_sum_sat_bound(a2: int, b2: int, c2: int, dv: int, bound: int)
    requires
        dv == add_v(add_v(a2, b2), c2),
        0 <= a2,
        0 <= b2,
        0 <= c2,
        dv <= bound,
        bound < i64::MAX as int,
    ensures
        a2 <= bound,
        b2 <= bound,
        c2 <= bound,
{
}

/// One coordinate of a vector whose squared length stays small is itself
/// within a unit and a little of one.
proof fn lemma_component_bound(c: int, a2: int)
    requires
        a2 == mul_v(c, c),
        a2 <= (SCALE as int) + 2_002,
        i64::MIN as int <= c <= i64::MAX as int,
    ensures
        iabs(c) <= (SCALE as int) + 1_001,
{
    let sc = SCALE as int;
    assert(c * c >= 0) by (nonlinear_arith);
    let q = tdiv(c * c, sc);
    assert(q == (c * c) / sc);
    vstd::arithmetic::div_mod::lemma_div_of0(sc);
    vstd::arithmetic::div_mod::lemma_div_is_ordered(0, c * c, sc);
    assert(q <= sc + 2_002);
    vstd::arithmetic::div_mod::lemma_fundamental_div_mod(c * c, sc);
    vstd::arithmetic::div_mod::lemma_mod_bound(c * c, sc);
    assert(iabs(c) <= sc + 1_001) by (nonlinear_arith)
        requires
            c * c == sc * q + (c * c) % sc,
            0 <= (c * c) % sc < sc,
            q <= sc + 2_002,
            sc == 10_000_000,
            iabs(c) == (if c < 0 {
                -c
            } else {
                c
            }),
    ;
}

/// Normalization is the identity up to rounding noise on a vector whose
/// length is already one within the tolerance: no coordinate moves by
/// more than twice the tolerance.
pub proof fn lemma_normalize_near_unit(p: Point)
    requires
        SCALE - EPSILON <= lenp_m(p).v <= SCALE + EPSILON,
    ensures
        iabs(normalizep_m(p).x.v - p.x.v) <= 2 * EPSILON,
        iabs(normalizep_m(p).y.v - p.y.v) <= 2 * EPSILON,
        iabs(normalizep_m(p).z.v - p.z.v) <= 2 * EPSILON,
{
    let sc = SCALE as int;
    let dv = dotp_m(p, p).v as int;
    let lv = lenp_m(p).v as int;
    assert(dv > 0);
    lemma_sqrt_floor_exists(dv * sc);
    let l0 = sqrt_floor(dv * sc);
    assert(l0 <= 9_700_000_000_000) by (nonlinear_arith)
        requires
            l0 * l0 <= dv * sc,
            dv <= i64::MAX as int,
            sc == 10_000_000,
            l0 >= 0,
    ;
    assert(lv == l0);
    assert(dv <= sc + 2_002) by (nonlinear_arith)
        requires
            dv * sc < (lv + 1) * (lv + 1),
            lv <= sc + 1_000,
            0 <= lv,
            sc == 10_000_000,
    ;
    let a2 = mul_v(p.x.v as int, p.x.v as int);
    let b2 = mul_v(p.y.v as int, p.y.v as int);
    let c2 = mul_v(p.z.v as int, p.z.v as int);
    assert(p.x.v as int * (p.x.v as int) >= 0 && p.y.v as int * (p.y.v as int) >= 0 && p.z.v as int
        * (p.z.v as int) >= 0) by (nonlinear_arith);
    vstd::arithmetic::div_mod::lemma_div_of0(sc);
    vstd::arithmetic::div_mod::lemma_div_is_ordered(0, p.x.v as int * (p.x.v as int), sc);
    vstd::arithmetic::div_mod::lemma_div_is_ordered(0, p.y.v as int * (p.y.v as int), sc);
    vstd::arithmetic::div_mod::lemma_div_is_ordered(0, p.z.v as int * (p.z.v as int), sc);
    lemma_sum_sat_bound(a2, b2, c2, dv, sc + 2_002);
    lemma_component_bound(p.x.v as int, a2);
    lemma_component_bound(p.y.v as int, b2);
    lemma_component_bound(p.z.v as int, c2);
    lemma_div_v_near_identity(p.x.v as int, lv);
    lemma_div_v_near_identity(p.y.v as int, lv);
    lemma_div_v_near_identity(p.z.v as int, lv);
}

} // verus!
