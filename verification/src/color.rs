//! Linear-light colors and their encoding into display bytes.
//!
//! Channels live in an unbounded linear space; only the final encoding
//! clamps.  The transfer curve's fractional power `1/2.4 == 5/12` is
//! computed exactly as staged rounded-down integer roots, so the encoded
//! byte of every channel value is pinned down by the model.

use vstd::prelude::*;

use crate::fixed::Fx;
use crate::fixed::SCALE;
use crate::fixed::add_m;
use crate::fixed::cbrt_floor;
use crate::fixed::fx;
use crate::fixed::fx_add;
use crate::fixed::fx_mul;
use crate::fixed::fx_sub;
use crate::fixed::icbrt;
use crate::fixed::isqrt;
use crate::fixed::mul_m;
use crate::fixed::sqrt_floor;
use crate::fixed::sub_m;

verus! {

/// A color as linear-light channel intensities, unclamped.
#[derive(Clone, Copy, PartialEq, Eq, Structural, Debug)]
pub struct LinearColor {
    pub red: Fx,
    pub green: Fx,
    pub blue: Fx,
}

/// A display-encoded pixel: one byte per channel.
#[derive(Clone, Copy, PartialEq, Eq, Structural, Debug)]
pub struct Rgb8 {
    pub red: u8,
    pub green: u8,
    pub blue: u8,
}

pub open spec fn scale_color_m(c: LinearColor, s: Fx) -> LinearColor {
    LinearColor { red: mul_m(c.red, s), green: mul_m(c.green, s), blue: mul_m(c.blue, s) }
}

pub open spec fn add_color_m(a: LinearColor, b: LinearColor) -> LinearColor {
    LinearColor {
        red: add_m(a.red, b.red),
        green: add_m(a.green, b.green),
        blue: add_m(a.blue, b.blue),
    }
}

pub fn scale_linear_color(color: &LinearColor, s: Fx) -> (r: LinearColor)
    ensures
        r == scale_color_m(*color, s),
{
    LinearColor {
        red: fx_mul(color.red, s),
        green: fx_mul(color.green, s),
        blue: fx_mul(color.blue, s),
    }
}

pub fn add_linear_color(colora: &LinearColor, colorb: &LinearColor) -> (r: LinearColor)
    ensures
        r == add_color_m(*colora, *colorb),
{
    LinearColor {
        red: fx_add(colora.red, colorb.red),
        green: fx_add(colora.green, colorb.green),
        blue: fx_add(colora.blue, colorb.blue),
    }
}

pub open spec fn pow5(x: int) -> int {
    x * x * x * x * x
}

/// The fractional power `x^(5/12)` of a channel in `(0, 1)`, taken as the
/// fifth power followed by staged rounded-down cube and square roots, with
/// decimal shifts keeping the scale.
pub open spec fn gamma_root_m(x: Fx) -> Fx {
    let t1 = cbrt_floor(pow5(x.v as int) * 10);
    let t2 = sqrt_floor(t1 * 10_000);
    let t3 = sqrt_floor(t2 * 1_000_000);
    fx(t3)
}

fn gamma_root(x: Fx) -> (r: Fx)
    requires
        0 < x.v < SCALE,
    ensures
        r == gamma_root_m(x),
{
    let b: u128 = x.v as u128;
    proof {
        let bi = b as int;
        assert(0 < bi * bi <= 100_000_000_000_000int && 0 < bi * bi * bi
            <= 1_000_000_000_000_000_000_000int && 0 < bi * bi * bi * bi
            <= 10_000_000_000_000_000_000_000_000_000int && 0 < bi * bi * bi * bi * bi
            <= 100_000_000_000_000_000_000_000_000_000_000_000int && bi * bi * bi * bi * bi
            * 10 < 0x40000000000000000000000000000000int) by (nonlinear_arith)
            requires
                0 < bi < 10_000_000,
        ;
    }
    let p5: u128 = b * b * b * b * b;
    let t1: u128 = icbrt(p5 * 10);
    proof {
        assert(t1 as int <= 1_000_000_000_000int) by (nonlinear_arith)
            requires
                0 <= t1 as int,
                (t1 as int) * (t1 as int) * (t1 as int) <= (p5 as int) * 10,
                (p5 as int) * 10 <= 1_000_000_000_000_000_000_000_000_000_000_000_000int,
        ;
    }
    let t2: u128 = isqrt(t1 * 10_000);
    proof {
        assert(t2 as int <= 100_000_000int) by (nonlinear_arith)
            requires
                0 <= t2 as int,
                (t2 as int) * (t2 as int) <= (t1 as int) * 10_000,
                (t1 as int) * 10_000 <= 10_000_000_000_000_000int,
        ;
    }
    let t3: u128 = isqrt(t2 * 1_000_000);
    proof {
        assert(t3 as int <= 10_000_000int) by (nonlinear_arith)
            requires
                0 <= t3 as int,
                (t3 as int) * (t3 as int) <= (t2 as int) * 1_000_000,
                (t2 as int) * 1_000_000 <= 100_000_000_000_000int,
        ;
    }
    Fx { v: t3 as i64 }
}

/// The display transfer curve on one channel: zero below zero, linear in
/// the dark range, `1.055 * x^(5/12) - 0.055` in the middle, one from one
/// upward.
pub open spec fn srgb_m(x: Fx) -> Fx {
    if x.v < 0 {
        fx(0)
    } else if x.v < 31_308 {
        mul_m(x, fx(129_200_000))
    } else if x.v < SCALE {
        sub_m(mul_m(fx(10_550_000), gamma_root_m(x)), fx(550_000))
    } else {
        fx(SCALE as int)
    }
}

pub fn linear_to_srgb(x: Fx) -> (r: Fx)
    ensures
        r == srgb_m(x),
{
    if x.v < 0 {
        Fx { v: 0 }
    } else if x.v < 31_308 {
        fx_mul(x, Fx { v: 129_200_000 })
    } else if x.v < SCALE {
        fx_sub(fx_mul(Fx { v: 10_550_000 }, gamma_root(x)), Fx { v: 550_000 })
    } else {
        Fx { v: SCALE }
    }
}

/// One encoded channel: the transfer curve scaled by 256, truncated to a
/// byte, saturating at both ends.  Scaling by 256 rather than 255 means a
/// channel of exactly one overshoots to 256 and is caught by the clamp.
pub open spec fn byte_v(s: int) -> int {
    if s < 0 {
        0
    } else if (s * 256) / (SCALE as int) > 255 {
        255
    } else {
        (s * 256) / (SCALE as int)
    }
}

pub open spec fn channel_byte_m(x: Fx) -> u8 {
    byte_v(srgb_m(x).v as int) as u8
}

fn channel_byte(x: Fx) -> (r: u8)
    ensures
        r == channel_byte_m(x),
{
    let s = linear_to_srgb(x);
    if s.v < 0 {
        0
    } else {
        let q: u128 = ((s.v as u128) * 256) / (SCALE as u128);
        if q > 255 {
            255
        } else {
            q as u8
        }
    }
}

pub open spec fn png_color_m(color: LinearColor) -> Rgb8 {
    Rgb8 {
        red: channel_byte_m(color.red),
        green: channel_byte_m(color.green),
        blue: channel_byte_m(color.blue),
    }
}

/// Encode a linear color into display bytes.
pub fn to_png_color(color: &LinearColor) -> (r: Rgb8)
    ensures
        r == png_color_m(*color),
{
    Rgb8 {
        red: channel_byte(color.red),
        green: channel_byte(color.green),
        blue: channel_byte(color.blue),
    }
}

} // verus!
