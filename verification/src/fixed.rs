//! Fixed-point scalar arithmetic.
//!
//! A scalar is a signed 64-bit count of raw units, `SCALE` of them to one.
//! Every operation saturates at the `i64` range and truncates toward zero,
//! and each executable operation is proved equal to an exact integer model.

use vstd::prelude::*;

verus! {

use vstd::arithmetic::div_mod::lemma_fundamental_div_mod;
use vstd::arithmetic::div_mod::lemma_fundamental_div_mod_converse;
use vstd::arithmetic::div_mod::lemma_mod_multiples_vanish;

/// Raw units per 1.0 of scalar value.
pub const SCALE: i64 = 10_000_000;

/// A fixed-point scalar: `v` raw units stand for the value `v / SCALE`.
#[derive(Clone, Copy, PartialEq, Eq, Structural, Debug)]
pub struct Fx {
    pub v: i64,
}

/// Clamp an unbounded integer into the `i64` range.
pub open spec fn sat64(x: int) -> int {
    if x > i64::MAX as int {
        i64::MAX as int
    } else if x < i64::MIN as int {
        i64::MIN as int
    } else {
        x
    }
}

pub open spec fn iabs(x: int) -> int {
    if x < 0 {
        -x
    } else {
        x
    }
}

/// Division truncated toward zero (the sign rule of machine division).
pub open spec fn tdiv(n: int, d: int) -> int {
    if (n < 0) == (d < 0) {
        iabs(n) / iabs(d)
    } else {
        -(iabs(n) / iabs(d))
    }
}

/// Model of fixed-point addition.
pub open spec fn add_v(a: int, b: int) -> int {
    sat64(a + b)
}

/// Model of fixed-point subtraction.
pub open spec fn sub_v(a: int, b: int) -> int {
    sat64(a - b)
}

/// Model of fixed-point negation.
pub open spec fn neg_v(a: int) -> int {
    sat64(-a)
}

/// Model of fixed-point multiplication: scale-corrected truncated product.
pub open spec fn mul_v(a: int, b: int) -> int {
    sat64(tdiv(a * b, SCALE as int))
}

/// Model of fixed-point division: scale-corrected truncated quotient.
pub open spec fn div_v(a: int, b: int) -> int {
    sat64(tdiv(a * (SCALE as int), b))
}

/// Build a scalar from a raw count known to lie in the `i64` range.
pub open spec fn fx(x: int) -> Fx {
    Fx { v: x as i64 }
}

pub fn fx_add(a: Fx, b: Fx) -> (r: Fx)
    ensures
        r == fx(add_v(a.v as int, b.v as int)),
{
    let s: i128 = a.v as i128 + b.v as i128;
    if s > i64::MAX as i128 {
        Fx { v: i64::MAX }
    } else if s < i64::MIN as i128 {
        Fx { v: i64::MIN }
    } else {
        Fx { v: s as i64 }
    }
}

pub fn fx_sub(a: Fx, b: Fx) -> (r: Fx)
    ensures
        r == fx(sub_v(a.v as int, b.v as int)),
{
    let s: i128 = a.v as i128 - b.v as i128;
    if s > i64::MAX as i128 {
        Fx { v: i64::MAX }
    } else if s < i64::MIN as i128 {
        Fx { v: i64::MIN }
    } else {
        Fx { v: s as i64 }
    }
}

pub fn fx_neg(a: Fx) -> (r: Fx)
    ensures
        r == fx(neg_v(a.v as int)),
{
    if a.v == i64::MIN {
        Fx { v: i64::MAX }
    } else {
        Fx { v: -a.v }
    }
}

/// Model of fixed-point absolute value.
pub open spec fn abs_v(a: int) -> int {
    sat64(iabs(a))
}

pub fn fx_abs(a: Fx) -> (r: Fx)
    ensures
        r == fx(abs_v(a.v as int)),
{
    if a.v == i64::MIN {
        Fx { v: i64::MAX }
    } else if a.v < 0 {
        Fx { v: -a.v }
    } else {
        a
    }
}

/// Clamp a nonnegative magnitude with a sign bit into the `i64` range.
fn clamp_signed(m: u128, neg: bool) -> (r: i64)
    ensures
        neg ==> r as int == sat64(-(m as int)),
        !neg ==> r as int == sat64(m as int),
{
    if neg {
        if m >= 9_223_372_036_854_775_808u128 {
            i64::MIN
        } else {
            -(m as i64)
        }
    } else {
        if m > i64::MAX as u128 {
            i64::MAX
        } else {
            m as i64
        }
    }
}

pub fn fx_mul(a: Fx, b: Fx) -> (r: Fx)
    ensures
        r == fx(mul_v(a.v as int, b.v as int)),
{
    proof {
        assert((a.v as int) * (b.v as int) <= 0x40000000000000000000000000000000int
            && (a.v as int) * (b.v as int) >= -0x40000000000000000000000000000000int)
            by (nonlinear_arith)
            requires
                i64::MIN as int <= a.v as int <= i64::MAX as int,
                i64::MIN as int <= b.v as int <= i64::MAX as int,
        ;
    }
    let p: i128 = (a.v as i128) * (b.v as i128);
    let neg: bool = p < 0;
    let m: u128 = if p < 0 {
        (-p) as u128
    } else {
        p as u128
    };
    let q: u128 = m / (SCALE as u128);
    Fx { v: clamp_signed(q, neg) }
}

pub fn fx_div(a: Fx, b: Fx) -> (r: Fx)
    requires
        b.v != 0,
    ensures
        r == fx(div_v(a.v as int, b.v as int)),
{
    proof {
        assert((a.v as int) * (SCALE as int) <= 0x40000000000000000000000000000000int
            && (a.v as int) * (SCALE as int) >= -0x40000000000000000000000000000000int)
            by (nonlinear_arith)
            requires
                i64::MIN as int <= a.v as int <= i64::MAX as int,
        ;
    }
    let n: i128 = (a.v as i128) * (SCALE as i128);
    let bd: i128 = b.v as i128;
    let neg: bool = (n < 0) != (bd < 0);
    let mn: u128 = if n < 0 {
        (-n) as u128
    } else {
        n as u128
    };
    let md: u128 = if bd < 0 {
        (-bd) as u128
    } else {
        bd as u128
    };
    let q: u128 = mn / md;
    if n == 0 {
        Fx { v: 0 }
    } else {
        Fx { v: clamp_signed(q, neg) }
    }
}

/// The integer square root, rounded down.
pub open spec fn sqrt_floor(x: int) -> int {
    choose|r: int| 0 <= r && #[trigger] (r * r) <= x && x < (r + 1) * (r + 1)
}

/// The integer cube root of a nonnegative integer, rounded down.
pub open spec fn cbrt_floor(x: int) -> int {
    choose|r: int| 0 <= r && #[trigger] (r * r * r) <= x && x < (r + 1) * (r + 1) * (r + 1)
}

pub proof fn lemma_sqrt_floor_is(x: int, r: int)
    requires
        0 <= r,
        r * r <= x,
        x < (r + 1) * (r + 1),
    ensures
        sqrt_floor(x) == r,
{
    assert(0 <= r && r * r <= x && x < (r + 1) * (r + 1));
    let c = sqrt_floor(x);
    assert(0 <= c && c * c <= x && x < (c + 1) * (c + 1));
    if c < r {
        assert((c + 1) * (c + 1) <= r * r) by (nonlinear_arith)
            requires
                0 <= c,
                c < r,
        ;
    }
    if c > r {
        assert((r + 1) * (r + 1) <= c * c) by (nonlinear_arith)
            requires
                0 <= r,
                r < c,
        ;
    }
}

pub proof fn lemma_cbrt_floor_is(x: int, r: int)
    requires
        0 <= r,
        r * r * r <= x,
        x < (r + 1) * (r + 1) * (r + 1),
    ensures
        cbrt_floor(x) == r,
{
    assert(0 <= r && r * r * r <= x && x < (r + 1) * (r + 1) * (r + 1));
    let c = cbrt_floor(x);
    assert(0 <= c && c * c * c <= x && x < (c + 1) * (c + 1) * (c + 1));
    if c < r {
        assert((c + 1) * (c + 1) * (c + 1) <= r * r * r) by (nonlinear_arith)
            requires
                0 <= c,
                c < r,
        ;
    }
    if c > r {
        assert((r + 1) * (r + 1) * (r + 1) <= c * c * c) by (nonlinear_arith)
            requires
                0 <= r,
                r < c,
        ;
    }
}

/// Every nonnegative integer has a rounded-down square root, so the
/// chosen root satisfies its defining bounds.
pub proof fn lemma_sqrt_floor_exists(x: int)
    requires
        0 <= x,
    ensures
        0 <= sqrt_floor(x),
        sqrt_floor(x) * sqrt_floor(x) <= x,
        x < (sqrt_floor(x) + 1) * (sqrt_floor(x) + 1),
    decreases x,
{
    if x == 0 {
        assert(0int * 0int <= x && x < (0int + 1) * (0int + 1)) by (nonlinear_arith)
            requires
                x == 0,
        ;
        assert(exists|r: int| 0 <= r && #[trigger] (r * r) <= x && x < (r + 1) * (r + 1)) by {
            assert(0 <= 0int && 0int * 0int <= x && x < (0int + 1) * (0int + 1));
        }
    } else {
        lemma_sqrt_floor_exists(x - 1);
        let r = sqrt_floor(x - 1);
        if (r + 1) * (r + 1) <= x {
            assert(x < ((r + 1) + 1) * ((r + 1) + 1)) by (nonlinear_arith)
                requires
                    x - 1 < (r + 1) * (r + 1),
                    0 <= r,
            ;
            assert(exists|s: int| 0 <= s && #[trigger] (s * s) <= x && x < (s + 1) * (s + 1)) by {
                assert(0 <= r + 1 && (r + 1) * (r + 1) <= x && x < ((r + 1) + 1) * ((r + 1) + 1));
            }
        } else {
            assert(exists|s: int| 0 <= s && #[trigger] (s * s) <= x && x < (s + 1) * (s + 1)) by {
                assert(0 <= r && r * r <= x && x < (r + 1) * (r + 1));
            }
        }
    }
}
pub fn isqrt(x: u128) -> (r: u128)
    requires
        (x as int) < 0x40000000000000000000000000000000int,
    ensures
        r as int == sqrt_floor(x as int),
        (r as int) * (r as int) <= x as int,
        (x as int) < (r as int + 1) * (r as int + 1),
{
    let mut lo: u128 = 0;
    let mut hi: u128 = 9_223_372_036_854_775_808u128;
    proof {
        assert((hi as int) * (hi as int) == 0x40000000000000000000000000000000int)
            by (nonlinear_arith)
            requires
                hi == 9_223_372_036_854_775_808u128,
        ;
    }
    while lo + 1 < hi
        invariant
            0 <= lo < hi <= 9_223_372_036_854_775_808u128,
            (lo as int) * (lo as int) <= x as int,
            (x as int) < (hi as int) * (hi as int),
        decreases hi - lo,
    {
        let mid: u128 = lo + (hi - lo) / 2;
        proof {
            assert((mid as int) * (mid as int) < 0x80000000000000000000000000000000int)
                by (nonlinear_arith)
                requires
                    0 <= mid as int,
                    (mid as int) < 9_223_372_036_854_775_808int,
            ;
        }
        if mid * mid <= x {
            lo = mid;
        } else {
            hi = mid;
        }
    }
    proof {
        lemma_sqrt_floor_is(x as int, lo as int);
    }
    lo
}

/// Binary search for the rounded-down cube root.
pub fn icbrt(x: u128) -> (r: u128)
    requires
        (x as int) < 0x40000000000000000000000000000000int,
    ensures
        r as int == cbrt_floor(x as int),
        (r as int) * (r as int) * (r as int) <= x as int,
        (x as int) < (r as int + 1) * (r as int + 1) * (r as int + 1),
{
    let mut lo: u128 = 0;
    let mut hi: u128 = 4_398_046_511_104u128;
    proof {
        assert((hi as int) * (hi as int) * (hi as int) == 0x40000000000000000000000000000000int)
            by (nonlinear_arith)
            requires
                hi == 4_398_046_511_104u128,
        ;
    }
    while lo + 1 < hi
        invariant
            0 <= lo < hi <= 4_398_046_511_104u128,
            (lo as int) * (lo as int) * (lo as int) <= x as int,
            (x as int) < (hi as int) * (hi as int) * (hi as int),
        decreases hi - lo,
    {
        let mid: u128 = lo + (hi - lo) / 2;
        proof {
            assert(0 <= (mid as int) * (mid as int)
                && (mid as int) * (mid as int) < 0x80000000000000000000000000000000int
                && (mid as int) * (mid as int) * (mid as int) < 0x80000000000000000000000000000000int)
                by (nonlinear_arith)
                requires
                    0 <= mid as int,
                    (mid as int) < 4_398_046_511_104int,
            ;
        }
        if mid * mid * mid <= x {
            lo = mid;
        } else {
            hi = mid;
        }
    }
    proof {
        lemma_cbrt_floor_is(x as int, lo as int);
    }
    lo
}

/// Model of the fixed-point square root: exact at whole raw units, rounded
/// down, and zero on any nonpositive input.
pub open spec fn sqrt_v(a: int) -> int {
    if a <= 0 {
        0
    } else {
        sqrt_floor(a * (SCALE as int))
    }
}

pub fn fx_sqrt(a: Fx) -> (r: Fx)
    ensures
        r == fx(sqrt_v(a.v as int)),
{
    if a.v <= 0 {
        Fx { v: 0 }
    } else {
        proof {
            assert(0 <= (a.v as int) * (SCALE as int)
                && (a.v as int) * (SCALE as int) < 0x4000000000000000000000000int)
                by (nonlinear_arith)
                requires
                    0 < a.v as int <= i64::MAX as int,
            ;
        }
        let x: u128 = (a.v as u128) * (SCALE as u128);
        let s: u128 = isqrt(x);
        proof {
            assert((s as int) * (s as int) <= x as int);
            assert(s as int <= 0x7fffffffffffffffint) by (nonlinear_arith)
                requires
                    0 <= s as int,
                    (s as int) * (s as int) <= x as int,
                    (x as int) < 0x4000000000000000000000000int,
            ;
        }
        Fx { v: s as i64 }
    }
}

/// Model of rounding a scalar down to a whole number of units.
pub open spec fn floor_v(a: int) -> int {
    a / (SCALE as int)
}

pub fn fx_floor(a: Fx) -> (r: i64)
    ensures
        r as int == floor_v(a.v as int),
        -1_000_000_000_000 <= r as int <= 1_000_000_000_000,
{
    if a.v >= 0 {
        let q: u128 = (a.v as u128) / (SCALE as u128);
        proof {
            lemma_fundamental_div_mod(a.v as int, SCALE as int);
            assert(q <= 1_000_000_000_000) by (nonlinear_arith)
                requires
                    a.v as int == (SCALE as int) * (q as int) + ((a.v as int) % (SCALE as int)),
                    0 <= (a.v as int) % (SCALE as int),
                    a.v as int <= i64::MAX as int,
                    SCALE == 10_000_000i64,
                    q as int >= 0,
            ;
        }
        q as i64
    } else {
        let m: u128 = (-(a.v as i128)) as u128;
        let q: u128 = (m + (SCALE as u128 - 1)) / (SCALE as u128);
        proof {
            let x: int = m as int + (SCALE as int) - 1;
            lemma_fundamental_div_mod(x, SCALE as int);
            let q0: int = x / (SCALE as int);
            let r0: int = x % (SCALE as int);
            assert(a.v as int == (-q0) * (SCALE as int) + ((SCALE as int) - 1 - r0))
                by (nonlinear_arith)
                requires
                    x == (SCALE as int) * q0 + r0,
                    x == -(a.v as int) + (SCALE as int) - 1,
            ;
            lemma_fundamental_div_mod_converse(
                a.v as int,
                SCALE as int,
                -q0,
                (SCALE as int) - 1 - r0,
            );
            assert(q0 <= 1_000_000_000_000) by (nonlinear_arith)
                requires
                    x == (SCALE as int) * q0 + r0,
                    0 <= r0,
                    x <= 9_223_372_046_854_775_807int,
                    SCALE == 10_000_000i64,
                    q0 >= 0,
            ;
        }
        -(q as i64)
    }
}

/// Whether a signed machine word is even.
pub fn is_even_i64(s: i64) -> (r: bool)
    ensures
        r == ((s as int) % 2 == 0),
{
    let m: u64 = if s >= 0 {
        s as u64
    } else {
        ((s as i128) + 0x10000000000000000i128) as u64
    };
    proof {
        if s < 0 {
            assert(m as int == s as int + 0x10000000000000000);
            lemma_mod_multiples_vanish(0x8000000000000000, s as int, 2);
        }
    }
    m % 2 == 0
}

/// Model of a small whole power of a scalar, by repeated multiplication.
pub open spec fn pow_v(a: int, n: nat) -> int
    decreases n,
{
    if n == 0 {
        SCALE as int
    } else {
        mul_v(pow_v(a, (n - 1) as nat), a)
    }
}

pub proof fn lemma_pow_v_in_range(a: int, n: nat)
    ensures
        i64::MIN as int <= pow_v(a, n) <= i64::MAX as int,
    decreases n,
{
    if n > 0 {
        lemma_pow_v_in_range(a, (n - 1) as nat);
    }
}

pub fn fx_pow(a: Fx, n: u32) -> (r: Fx)
    ensures
        r == fx(pow_v(a.v as int, n as nat)),
{
    let mut r = Fx { v: SCALE };
    let mut i: u32 = 0;
    while i < n
        invariant
            0 <= i <= n,
            r == fx(pow_v(a.v as int, i as nat)),
        decreases n - i,
    {
        proof {
            lemma_pow_v_in_range(a.v as int, i as nat);
        }
        r = fx_mul(r, a);
        i = i + 1;
    }
    r
}

/// Model of converting a whole number of units into a scalar.
pub open spec fn from_int_v(i: int) -> int {
    sat64(i * (SCALE as int))
}

pub fn fx_from_int(i: i64) -> (r: Fx)
    ensures
        r == fx(from_int_v(i as int)),
{
    proof {
        assert((i as int) * (SCALE as int) <= 0x40000000000000000000000000000000int
            && (i as int) * (SCALE as int) >= -0x40000000000000000000000000000000int)
            by (nonlinear_arith)
            requires
                i64::MIN as int <= i as int <= i64::MAX as int,
        ;
    }
    let p: i128 = (i as i128) * (SCALE as i128);
    if p > i64::MAX as i128 {
        Fx { v: i64::MAX }
    } else if p < i64::MIN as i128 {
        Fx { v: i64::MIN }
    } else {
        Fx { v: p as i64 }
    }
}

/// Truncated division undoes an exact multiple of a positive divisor.
pub proof fn lemma_tdiv_mul_cancel(c: int, d: int)
    requires
        0 < d,
    ensures
        tdiv(c * d, d) == c,
{
    if c >= 0 {
        assert(c * d >= 0 && c * d == d * c && iabs(c * d) == d * c) by (nonlinear_arith)
            requires
                c >= 0,
                d > 0,
        ;
        vstd::arithmetic::div_mod::lemma_div_multiples_vanish(c, d);
    } else {
        assert(c * d < 0 && -(c * d) == d * (-c) && iabs(c * d) == d * (-c)) by (nonlinear_arith)
            requires
                c < 0,
                d > 0,
        ;
        vstd::arithmetic::div_mod::lemma_div_multiples_vanish(-c, d);
    }
}

/// Truncated division undoes an exact multiple given as a product.
pub proof fn lemma_tdiv_mul_cancel2(c: int, d: int, n: int)
    requires
        0 < d,
        n == c * d,
    ensures
        tdiv(n, d) == c,
{
    lemma_tdiv_mul_cancel(c, d);
}

/// Multiplying a truncated quotient back misses the numerator by less
/// than the divisor.
pub proof fn lemma_tdiv_remainder(a: int, d: int)
    requires
        0 < d,
    ensures
        iabs(a - tdiv(a, d) * d) < d,
{
    lemma_fundamental_div_mod(iabs(a), d);
    vstd::arithmetic::div_mod::lemma_mod_bound(iabs(a), d);
    let q = iabs(a) / d;
    let r = iabs(a) % d;
    if a >= 0 {
        assert(a - q * d == r) by (nonlinear_arith)
            requires
                a == d * q + r,
        ;
    } else {
        assert(a - (-q) * d == -r) by (nonlinear_arith)
            requires
                -a == d * q + r,
        ;
    }
}

/// A common positive factor of numerator and denominator cancels out of
/// truncated division.
pub proof fn lemma_tdiv_scale_cancel(a: int, b: int, c: int)
    requires
        0 < b,
        0 < c,
    ensures
        tdiv(a * c, b * c) == tdiv(a, b),
{
    assert(iabs(a * c) == c * iabs(a) && iabs(b * c) == c * iabs(b) && ((a * c < 0) == (a < 0))
        && b * c > 0) by (nonlinear_arith)
        requires
            0 < c,
            0 < b,
            iabs(a) == if a < 0 {
                -a
            } else {
                a
            },
            iabs(a * c) == if a * c < 0 {
                -(a * c)
            } else {
                a * c
            },
            iabs(b) == b,
            iabs(b * c) == if b * c < 0 {
                -(b * c)
            } else {
                b * c
            },
    ;
    vstd::arithmetic::div_mod::lemma_div_multiples_vanish_quotient(c, iabs(a), iabs(b));
}

/// Truncated division by a positive divisor is monotone in the numerator.
pub proof fn lemma_tdiv_ordered(n1: int, n2: int, d: int)
    requires
        n1 <= n2,
        0 < d,
    ensures
        tdiv(n1, d) <= tdiv(n2, d),
{
    vstd::arithmetic::div_mod::lemma_div_of0(d);
    if 0 <= n1 {
        vstd::arithmetic::div_mod::lemma_div_is_ordered(n1, n2, d);
    } else if n2 < 0 {
        vstd::arithmetic::div_mod::lemma_div_is_ordered(-n2, -n1, d);
    } else {
        vstd::arithmetic::div_mod::lemma_div_is_ordered(0, -n1, d);
        vstd::arithmetic::div_mod::lemma_div_is_ordered(0, n2, d);
    }
}

/// Dividing a bounded scalar by a divisor within the tolerance of one
/// moves it by at most twice the tolerance: the quotient stays within
/// rounding noise of the numerator.
pub proof fn lemma_div_v_near_identity(c: int, l: int)
    requires
        iabs(c) <= 10_001_001,
        9_999_000 <= l <= 10_001_000,
    ensures
        iabs(div_v(c, l) - c) <= 2_000,
{
    let sc = SCALE as int;
    let q = tdiv(c * sc, l);
    lemma_tdiv_remainder(c * sc, l);
    let rem = c * sc - q * l;
    assert(iabs(q) <= 10_003_000 && iabs(q - c) <= 2_000) by (nonlinear_arith)
        requires
            iabs(rem) < l,
            rem == c * sc - q * l,
            iabs(c) <= 10_001_001,
            9_999_000 <= l <= 10_001_000,
            sc == 10_000_000,
            iabs(rem) == (if rem < 0 {
                -rem
            } else {
                rem
            }),
            iabs(c) == (if c < 0 {
                -c
            } else {
                c
            }),
            iabs(q) == (if q < 0 {
                -q
            } else {
                q
            }),
            iabs(q - c) == (if q - c < 0 {
                -(q - c)
            } else {
                q - c
            }),
    ;
    assert(sat64(q) == q);
}

/// A whole number of at least one becomes a scalar of at least one.
pub proof fn lemma_from_int_pos(i: int)
    requires
        i >= 1,
    ensures
        from_int_m(i).v >= SCALE,
{
    assert(i * (SCALE as int) >= SCALE as int) by (nonlinear_arith)
        requires
            i >= 1,
    ;
}

/// Doubling keeps a positive scalar positive.
pub proof fn lemma_double_pos(a: Fx)
    requires
        a.v > 0,
    ensures
        mul_m(a, fx(20_000_000)).v > 0,
{
    lemma_tdiv_mul_cancel(2 * (a.v as int), SCALE as int);
    assert((a.v as int) * 20_000_000 == (2 * (a.v as int)) * (SCALE as int)) by (nonlinear_arith);
}

/// Scalar-level models of the operations, stated on the scalar type itself.
pub open spec fn add_m(a: Fx, b: Fx) -> Fx {
    fx(add_v(a.v as int, b.v as int))
}

pub open spec fn sub_m(a: Fx, b: Fx) -> Fx {
    fx(sub_v(a.v as int, b.v as int))
}

pub open spec fn neg_m(a: Fx) -> Fx {
    fx(neg_v(a.v as int))
}

pub open spec fn mul_m(a: Fx, b: Fx) -> Fx {
    fx(mul_v(a.v as int, b.v as int))
}

pub open spec fn div_m(a: Fx, b: Fx) -> Fx {
    fx(div_v(a.v as int, b.v as int))
}

pub open spec fn abs_m(a: Fx) -> Fx {
    fx(abs_v(a.v as int))
}

pub open spec fn sqrt_m(a: Fx) -> Fx {
    fx(sqrt_v(a.v as int))
}

pub open spec fn pow_m(a: Fx, n: nat) -> Fx {
    fx(pow_v(a.v as int, n))
}

pub open spec fn from_int_m(i: int) -> Fx {
    fx(from_int_v(i))
}

} // verus!
