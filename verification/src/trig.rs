//! Fixed-point circular functions.
//!
//! The sine uses Bhaskara's rational approximation after range reduction;
//! the arctangent uses a first-order polynomial over one octant.  Each
//! function's contract is an exact mirror of its computation, and every
//! result is clamped into its mathematical range.

use vstd::prelude::*;
use crate::fixed::{clip, fx_div_v, fx_mul_v, Fx, FX_UNIT};

verus! {

/// Raw fixed-point value of pi.
pub const PI_RAW: i64 = 205887;

/// Raw fixed-point value of two pi.
pub const TWO_PI_RAW: i64 = 411774;

/// Raw fixed-point value of half pi.
pub const HALF_PI_RAW: i64 = 102943;

/// Raw fixed-point value of a quarter pi.
pub const QUARTER_PI_RAW: i64 = 51471;

/// Raw coefficient of the octant arctangent polynomial.
pub const ATAN_C_RAW: i64 = 17892;

pub open spec fn clamp_v(x: int, lo: int, hi: int) -> int {
    if x < lo {
        lo
    } else if x > hi {
        hi
    } else {
        x
    }
}

/// Bhaskara's sine approximation on `[0, pi]`:
/// `16 y (pi - y) / (5 pi^2 - 4 y (pi - y))`, clamped into `[-1, 1]`.
pub open spec fn bhaskara_v(y: int) -> int {
    let a = fx_mul_v(y, clip(PI_RAW - y));
    let num = fx_mul_v(16 * (FX_UNIT as int), a);
    let den = clip(fx_mul_v(5 * (FX_UNIT as int), fx_mul_v(PI_RAW as int, PI_RAW as int)) - fx_mul_v(
        4 * (FX_UNIT as int),
        a,
    ));
    clamp_v(fx_div_v(num, den), -(FX_UNIT as int), FX_UNIT as int)
}

/// The sine of an angle in raw radian units.
pub open spec fn fx_sin_v(x: int) -> int {
    let m = x % (TWO_PI_RAW as int);
    if m <= PI_RAW as int {
        bhaskara_v(m)
    } else {
        -bhaskara_v(clip(m - PI_RAW as int))
    }
}

/// The cosine of an angle in raw radian units.
pub open spec fn fx_cos_v(x: int) -> int {
    fx_sin_v(clip(x + HALF_PI_RAW as int))
}

/// The octant arctangent polynomial `z (pi/4 + c (1 - z))` for `z` in `[0, 1]`.
pub open spec fn atan_poly_v(z: int) -> int {
    fx_mul_v(z, clip(QUARTER_PI_RAW as int + fx_mul_v(ATAN_C_RAW as int, clip(FX_UNIT as int - z))))
}

/// The angle of the point `(x, y)`, in `[-pi, pi]`.
pub open spec fn fx_atan2_v(y: int, x: int) -> int {
    if x == 0 && y == 0 {
        0
    } else {
        let ax = if x >= 0 { x } else { -x };
        let ay = if y >= 0 { y } else { -y };
        let base = if ay <= ax {
            atan_poly_v(fx_div_v(ay, ax))
        } else {
            clip(HALF_PI_RAW as int - atan_poly_v(fx_div_v(ax, ay)))
        };
        let ang = if x >= 0 { base } else { clip(PI_RAW as int - base) };
        let sang = if y >= 0 { ang } else { -ang };
        clamp_v(sang, -(PI_RAW as int), PI_RAW as int)
    }
}

/// The arccosine of a scalar, in `[0, pi]`.
pub open spec fn fx_acos_v(y: int) -> int {
    let ssq = clip(FX_UNIT as int - fx_mul_v(y, y));
    let s = crate::fixed::fx_sqrt_v(if ssq >= 0 { ssq } else { 0 });
    clamp_v(fx_atan2_v(s, y), 0, PI_RAW as int)
}

/// Raw fixed-point value of the natural logarithm of two.
pub const LN2_RAW: i64 = 45426;

/// Raw value of one half.
pub const HALF_RAW: i64 = 32768;

/// The value returned for `-ln` of zero or of anything outside `(0, 1)`
/// from below: large enough that an exponential free path never hits.
pub const NEG_LN_CAP_RAW: i64 = 3276800;

/// Doubling normalization: how often a value below one half must be
/// doubled to reach `[1/2, 1)`, and the value it reaches.
pub open spec fn ln_norm_v(u: int, fuel: int) -> (int, int)
    decreases fuel,
{
    if fuel <= 0 || u >= HALF_RAW as int {
        (u, 0)
    } else {
        let p = ln_norm_v(clip(u + u), fuel - 1);
        (p.0, p.1 + 1)
    }
}

/// The series `x - x^2/2 + x^3/3 - x^4/4` for `ln(1 + x)`, on the raw
/// value `m` in `[1/2, 1)` with `x = m - 1`.
pub open spec fn ln_core_v(m: int) -> int {
    let x = clip(m - FX_UNIT as int);
    let x2 = fx_mul_v(x, x);
    let x3 = fx_mul_v(x2, x);
    let x4 = fx_mul_v(x3, x);
    clip(clip(clip(x - fx_mul_v(x2, HALF_RAW as int)) + fx_mul_v(x3, 21845))
        - fx_mul_v(x4, 16384))
}

/// `-ln(u)` for a scalar `u` in `(0, 1)`; zero and negative inputs give
/// the cap, inputs of one or more give zero.  Always nonnegative.
pub open spec fn fx_neg_ln_v(u: int) -> int {
    if u <= 0 {
        NEG_LN_CAP_RAW as int
    } else if u >= FX_UNIT as int {
        0
    } else {
        let p = ln_norm_v(u, 17);
        let v = clip(clip(p.1 * (LN2_RAW as int)) - ln_core_v(p.0));
        if v >= 0 {
            v
        } else {
            0
        }
    }
}

fn ln_norm(u: Fx, fuel: u32) -> (r: (Fx, u32))
    ensures
        r.0@ == ln_norm_v(u@, fuel as int).0,
        r.1 as int == ln_norm_v(u@, fuel as int).1,
        r.1 <= fuel,
    decreases fuel,
{
    if fuel == 0 || !u.lt(Fx::from_raw(HALF_RAW)) {
        (u, 0)
    } else {
        let p = ln_norm(u.add(u), fuel - 1);
        (p.0, p.1 + 1)
    }
}

fn ln_core(m: Fx) -> (r: Fx)
    ensures
        r@ == ln_core_v(m@),
{
    let x = m.sub(Fx::one());
    let x2 = x.mul(x);
    let x3 = x2.mul(x);
    let x4 = x3.mul(x);
    x.sub(x2.mul(Fx::from_raw(HALF_RAW))).add(x3.mul(Fx::from_raw(21845))).sub(
        x4.mul(Fx::from_raw(16384)),
    )
}

/// `-ln(u)` for `u` in `(0, 1)`, used to draw exponential free paths.
pub fn fx_neg_ln(u: Fx) -> (r: Fx)
    ensures
        r@ == fx_neg_ln_v(u@),
        r@ >= 0,
{
    let one = Fx::one();
    if !Fx::zero().lt(u) {
        Fx::from_raw(NEG_LN_CAP_RAW)
    } else if !u.lt(one) {
        Fx::zero()
    } else {
        let p = ln_norm(u, 17);
        let k = Fx::from_raw((p.1 as i64) * LN2_RAW);
        let v = k.sub(ln_core(p.0));
        v.max(Fx::zero())
    }
}

/// Bhaskara's sine approximation on `[0, pi]`.
fn bhaskara(y: Fx) -> (r: Fx)
    ensures
        r@ == bhaskara_v(y@),
        -(FX_UNIT as int) <= r@ <= FX_UNIT as int,
{
    let pi = Fx::from_raw(PI_RAW);
    let a = y.mul(pi.sub(y));
    let num = Fx::from_int(16).mul(a);
    let pi2 = pi.mul(pi);
    let den = Fx::from_int(5).mul(pi2).sub(Fx::from_int(4).mul(a));
    let one = Fx::one();
    num.div(den).clamp(one.neg(), one)
}

/// The sine of an angle in raw radian units.
pub fn fx_sin(x: Fx) -> (r: Fx)
    ensures
        r@ == fx_sin_v(x@),
        -(FX_UNIT as int) <= r@ <= FX_UNIT as int,
{
    let two_pi = Fx::from_raw(TWO_PI_RAW);
    let pi = Fx::from_raw(PI_RAW);
    let m = x.rem_euclid(two_pi);
    if m.le(pi) {
        bhaskara(m)
    } else {
        bhaskara(m.sub(pi)).neg()
    }
}

/// The cosine of an angle in raw radian units.
pub fn fx_cos(x: Fx) -> (r: Fx)
    ensures
        r@ == fx_cos_v(x@),
        -(FX_UNIT as int) <= r@ <= FX_UNIT as int,
{
    fx_sin(x.add(Fx::from_raw(HALF_PI_RAW)))
}

/// The octant arctangent polynomial for `z` in `[0, 1]`.
fn atan_poly(z: Fx) -> (r: Fx)
    ensures
        r@ == atan_poly_v(z@),
{
    let qp = Fx::from_raw(QUARTER_PI_RAW);
    let c = Fx::from_raw(ATAN_C_RAW);
    z.mul(qp.add(c.mul(Fx::one().sub(z))))
}

/// The angle of the point `(x, y)`, in `[-pi, pi]`.
pub fn fx_atan2(y: Fx, x: Fx) -> (r: Fx)
    ensures
        r@ == fx_atan2_v(y@, x@),
        -(PI_RAW as int) <= r@ <= PI_RAW as int,
{
    if x.is_zero() && y.is_zero() {
        return Fx::zero();
    }
    let ax = x.abs();
    let ay = y.abs();
    let base = if ay.le(ax) {
        atan_poly(ay.div(ax))
    } else {
        Fx::from_raw(HALF_PI_RAW).sub(atan_poly(ax.div(ay)))
    };
    let ang = if Fx::zero().le(x) {
        base
    } else {
        Fx::from_raw(PI_RAW).sub(base)
    };
    let sang = if Fx::zero().le(y) {
        ang
    } else {
        ang.neg()
    };
    let pi = Fx::from_raw(PI_RAW);
    sang.clamp(pi.neg(), pi)
}

/// The arccosine of a scalar, in `[0, pi]`.
pub fn fx_acos(y: Fx) -> (r: Fx)
    ensures
        r@ == fx_acos_v(y@),
        0 <= r@ <= PI_RAW as int,
{
    let ssq = Fx::one().sub(y.mul(y));
    let s = ssq.max(Fx::zero()).sqrt();
    let pi = Fx::from_raw(PI_RAW);
    fx_atan2(s, y).clamp(Fx::zero(), pi)
}

} // verus!
