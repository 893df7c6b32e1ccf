//! Saturating fixed-point scalars.
//!
//! A scalar is stored as a raw integer counting units of `1 / FX_UNIT`.
//! Every operation clips its result into `[-FX_SAT, FX_SAT]`, so all
//! operations are total and a product of two raw values always fits in
//! `i128`.

use vstd::prelude::*;
use vstd::arithmetic::div_mod::{
    lemma_fundamental_div_mod, lemma_fundamental_div_mod_converse,
};

verus! {

/// Raw units in one: a scalar with raw value `r` denotes `r / 65536`.
pub const FX_UNIT: i128 = 65536;

/// Saturation bound on raw values.
pub const FX_SAT: i128 = 0x4000_0000_0000_0000;

/// Clip an unbounded value into the representable raw range.
pub open spec fn clip(x: int) -> int {
    if x > FX_SAT as int {
        FX_SAT as int
    } else if x < -(FX_SAT as int) {
        -(FX_SAT as int)
    } else {
        x
    }
}

/// Floor division for any nonzero divisor.
pub open spec fn fdiv(n: int, d: int) -> int {
    if d > 0 {
        n / d
    } else {
        (-n) / (-d)
    }
}

/// Raw value of the product of two scalars.
pub open spec fn fx_mul_v(a: int, b: int) -> int {
    clip(fdiv(a * b, FX_UNIT as int))
}

/// Raw value of the quotient of two scalars; division by zero yields zero.
pub open spec fn fx_div_v(a: int, b: int) -> int {
    if b == 0 {
        0
    } else {
        clip(fdiv(a * (FX_UNIT as int), b))
    }
}

/// The square of an integer.
pub open spec fn sq(x: int) -> int {
    x * x
}

/// The unique nonnegative integer square root, when `n >= 0`.
pub open spec fn isqrt_v(n: int) -> int {
    choose|r: int| 0 <= r && #[trigger] sq(r) <= n && n < sq(r + 1)
}

/// Raw value of the square root of a scalar; negative inputs yield zero.
pub open spec fn fx_sqrt_v(x: int) -> int {
    if x <= 0 {
        0
    } else {
        isqrt_v(x * (FX_UNIT as int))
    }
}

/// A saturating fixed-point scalar.
#[derive(Clone, Copy, Debug, PartialEq, Eq, Structural)]
pub struct Fx {
    raw: i128,
}

impl View for Fx {
    type V = int;

    closed spec fn view(&self) -> int {
        self.raw as int
    }
}

impl Fx {
    /// All raw values stay inside the saturation range.
    #[verifier::type_invariant]
    pub closed spec fn inv(self) -> bool {
        -(FX_SAT as int) <= self.raw as int <= FX_SAT as int
    }

    /// Every scalar's value lies inside the saturation range.
    pub proof fn lemma_bounded(self)
        requires
            self.inv(),
        ensures
            -(FX_SAT as int) <= self@ <= FX_SAT as int,
    {
    }

    /// Build a scalar from a raw count of `1 / 65536` units.
    pub fn from_raw(raw: i64) -> (r: Fx)
        ensures
            r@ == clip(raw as int),
    {
        Fx { raw: clip_exec(raw as i128) }
    }

    /// Build a scalar denoting the integer `v`.
    pub fn from_int(v: i64) -> (r: Fx)
        ensures
            r@ == clip(v * (FX_UNIT as int)),
    {
        Fx { raw: clip_exec((v as i128) * FX_UNIT) }
    }

    /// The zero scalar.
    pub fn zero() -> (r: Fx)
        ensures
            r@ == 0,
    {
        Fx { raw: 0 }
    }

    /// The scalar one.
    pub fn one() -> (r: Fx)
        ensures
            r@ == FX_UNIT as int,
    {
        Fx { raw: FX_UNIT }
    }

    /// The raw representation, exposed for callers outside the library.
    pub fn raw(self) -> (r: i128)
        ensures
            r as int == self@,
    {
        self.raw
    }

    pub fn add(self, o: Fx) -> (r: Fx)
        ensures
            r@ == clip(self@ + o@),
    {
        proof {
            use_type_invariant(self);
            use_type_invariant(o);
        }
        Fx { raw: clip_exec(self.raw + o.raw) }
    }

    pub fn sub(self, o: Fx) -> (r: Fx)
        ensures
            r@ == clip(self@ - o@),
    {
        proof {
            use_type_invariant(self);
            use_type_invariant(o);
        }
        Fx { raw: clip_exec(self.raw - o.raw) }
    }

    pub fn neg(self) -> (r: Fx)
        ensures
            r@ == -self@,
    {
        proof {
            use_type_invariant(self);
        }
        Fx { raw: -self.raw }
    }

    pub fn mul(self, o: Fx) -> (r: Fx)
        ensures
            r@ == fx_mul_v(self@, o@),
    {
        proof {
            use_type_invariant(self);
            use_type_invariant(o);
            assert(-((FX_SAT as int) * (FX_SAT as int)) <= (self.raw as int) * (o.raw as int)
                && (self.raw as int) * (o.raw as int) <= (FX_SAT as int) * (FX_SAT as int))
                by (nonlinear_arith)
                requires
                    -(FX_SAT as int) <= self.raw as int <= FX_SAT as int,
                    -(FX_SAT as int) <= o.raw as int <= FX_SAT as int,
            ;
        }
        let p = floor_div(self.raw * o.raw, FX_UNIT);
        Fx { raw: clip_exec(p) }
    }

    pub fn div(self, o: Fx) -> (r: Fx)
        ensures
            r@ == fx_div_v(self@, o@),
    {
        proof {
            use_type_invariant(self);
            use_type_invariant(o);
            assert(-((FX_SAT as int) * (FX_UNIT as int)) <= (self.raw as int) * (FX_UNIT as int)
                && (self.raw as int) * (FX_UNIT as int) <= (FX_SAT as int) * (FX_UNIT as int))
                by (nonlinear_arith)
                requires
                    -(FX_SAT as int) <= self.raw as int <= FX_SAT as int,
            ;
        }
        if o.raw == 0 {
            Fx { raw: 0 }
        } else if o.raw > 0 {
            Fx { raw: clip_exec(floor_div(self.raw * FX_UNIT, o.raw)) }
        } else {
            let r = clip_exec(floor_div(-(self.raw * FX_UNIT), -o.raw));
            proof {
                assert(-(self@ * (FX_UNIT as int)) == (-self@) * (FX_UNIT as int))
                    by (nonlinear_arith);
            }
            Fx { raw: r }
        }
    }

    /// Square root; negative inputs yield zero.
    pub fn sqrt(self) -> (r: Fx)
        ensures
            r@ == fx_sqrt_v(self@),
            r@ >= 0,
    {
        proof {
            use_type_invariant(self);
        }
        if self.raw <= 0 {
            Fx { raw: 0 }
        } else {
            let n = (self.raw as u128) * (FX_UNIT as u128);
            let s = isqrt(n);
            proof {
                let sv = s as int;
                let nv = n as int;
                assert(0 <= sv && sq(sv) <= nv && nv < sq(sv + 1));
                assert(isqrt_v(nv) == sv) by {
                    let c = isqrt_v(nv);
                    assert(0 <= c && sq(c) <= nv && nv < sq(c + 1));
                    lemma_isqrt_unique(nv, c, sv);
                };
                assert(sv <= FX_SAT as int) by (nonlinear_arith)
                    requires
                        sq(sv) <= nv,
                        nv <= (FX_SAT as int) * (FX_UNIT as int),
                        0 <= sv,
                ;
            }
            Fx { raw: s as i128 }
        }
    }

    pub fn abs(self) -> (r: Fx)
        ensures
            r@ == if self@ >= 0 { self@ } else { -self@ },
    {
        proof {
            use_type_invariant(self);
        }
        if self.raw >= 0 {
            self
        } else {
            Fx { raw: -self.raw }
        }
    }

    pub fn min(self, o: Fx) -> (r: Fx)
        ensures
            r@ == if self@ <= o@ { self@ } else { o@ },
    {
        if self.raw <= o.raw {
            self
        } else {
            o
        }
    }

    pub fn max(self, o: Fx) -> (r: Fx)
        ensures
            r@ == if self@ >= o@ { self@ } else { o@ },
    {
        if self.raw >= o.raw {
            self
        } else {
            o
        }
    }

    pub fn lt(self, o: Fx) -> (r: bool)
        ensures
            r == (self@ < o@),
    {
        self.raw < o.raw
    }

    pub fn le(self, o: Fx) -> (r: bool)
        ensures
            r == (self@ <= o@),
    {
        self.raw <= o.raw
    }

    pub fn is_zero(self) -> (r: bool)
        ensures
            r == (self@ == 0),
    {
        self.raw == 0
    }

    /// Integer floor and nonnegative fractional remainder:
    /// `self@ == q * 65536 + f` with `0 <= f < 65536`.
    pub fn floor_parts(self) -> (r: (i64, Fx))
        ensures
            self@ == r.0 * (FX_UNIT as int) + r.1@,
            0 <= r.1@ < FX_UNIT as int,
            r.0 as int == self@ / (FX_UNIT as int),
            r.1@ == self@ % (FX_UNIT as int),
    {
        proof {
            use_type_invariant(self);
        }
        let q = floor_div(self.raw, FX_UNIT);
        let f = self.raw - q * FX_UNIT;
        proof {
            lemma_fundamental_div_mod(self.raw as int, FX_UNIT as int);
            assert(q * (FX_UNIT as int) == (FX_UNIT as int) * q) by (nonlinear_arith);
            assert(-(FX_SAT as int) <= q * (FX_UNIT as int) <= FX_SAT as int);
            lemma_fundamental_div_mod_converse(
                self.raw as int,
                FX_UNIT as int,
                q as int,
                self.raw as int - q as int * (FX_UNIT as int),
            );
        }
        (q as i64, Fx { raw: f })
    }

    /// The nonnegative remainder of this raw value modulo `m`.
    pub fn rem_euclid(self, m: Fx) -> (r: Fx)
        requires
            m@ > 0,
        ensures
            r@ == self@ % m@,
            0 <= r@ < m@,
    {
        proof {
            use_type_invariant(self);
            use_type_invariant(m);
        }
        let q = floor_div(self.raw, m.raw);
        proof {
            lemma_fundamental_div_mod(self.raw as int, m.raw as int);
        }
        let r = self.raw - q * m.raw;
        Fx { raw: r }
    }

    /// Clamp into `[lo, hi]`.
    pub fn clamp(self, lo: Fx, hi: Fx) -> (r: Fx)
        requires
            lo@ <= hi@,
        ensures
            r@ == if self@ < lo@ { lo@ } else if self@ > hi@ { hi@ } else { self@ },
    {
        if self.raw < lo.raw {
            lo
        } else if self.raw > hi.raw {
            hi
        } else {
            self
        }
    }
}

/// Clip a raw value into the saturation range.
fn clip_exec(x: i128) -> (r: i128)
    ensures
        r as int == clip(x as int),
        -(FX_SAT as int) <= r as int <= FX_SAT as int,
{
    if x > FX_SAT {
        FX_SAT
    } else if x < -FX_SAT {
        -FX_SAT
    } else {
        x
    }
}

/// Floor division of `n` by a positive divisor `d`.
fn floor_div(n: i128, d: i128) -> (q: i128)
    requires
        0 < d,
        -0x4000_0000_0000_0000_0000_0000_0000_0000 < n,
    ensures
        q as int == n as int / d as int,
{
    if n >= 0 {
        let qq = (n as u128) / (d as u128);
        proof {
            assert(qq as int == n as int / d as int);
            assert(n as int / d as int <= n as int) by {
                vstd::arithmetic::div_mod::lemma_div_is_ordered_by_denominator(
                    n as int, 1, d as int);
                vstd::arithmetic::div_mod::lemma_div_basics(n as int);
            };
        }
        qq as i128
    } else {
        let m = (-n) as u128;
        let qq = m / (d as u128);
        let rr = m % (d as u128);
        proof {
            lemma_fundamental_div_mod(m as int, d as int);
            let q0 = m as int / d as int;
            let r0 = m as int % d as int;
            assert(0 <= q0) by {
                vstd::arithmetic::div_mod::lemma_div_pos_is_pos(m as int, d as int);
            };
            assert(q0 <= m as int) by {
                vstd::arithmetic::div_mod::lemma_div_is_ordered_by_denominator(
                    m as int, 1, d as int);
                vstd::arithmetic::div_mod::lemma_div_basics(m as int);
            };
            if r0 == 0 {
                assert(n as int == d as int * (-q0) + 0) by (nonlinear_arith)
                    requires
                        m as int == d as int * q0 + 0,
                        n as int == -(m as int),
                ;
                lemma_fundamental_div_mod_converse(n as int, d as int, -q0, 0);
            } else {
                assert(n as int == d as int * (-q0 - 1) + (d as int - r0)) by (nonlinear_arith)
                    requires
                        m as int == d as int * q0 + r0,
                        n as int == -(m as int),
                ;
                lemma_fundamental_div_mod_converse(n as int, d as int, -q0 - 1, d as int - r0);
            }
        }
        if rr == 0 {
            -(qq as i128)
        } else {
            -(qq as i128) - 1
        }
    }
}

/// The nonnegative integer square root of `n`: the unique `r` with
/// `r * r <= n < (r + 1) * (r + 1)`.
fn isqrt(n: u128) -> (r: u128)
    ensures
        sq(r as int) <= n as int,
        (n as int) < sq(r as int + 1),
        r < 0x1_0000_0000_0000_0000,
{
    let mut lo: u128 = 0;
    let mut hi: u128 = 0x1_0000_0000_0000_0000;
    proof {
        assert(sq(hi as int) > n as int) by (nonlinear_arith)
            requires
                hi as int == 0x1_0000_0000_0000_0000,
                n as int <= u128::MAX as int,
        ;
    }
    while lo + 1 < hi
        invariant
            0 <= lo < hi <= 0x1_0000_0000_0000_0000,
            sq(lo as int) <= n as int,
            (n as int) < sq(hi as int),
        decreases hi - lo,
    {
        let mid = lo + (hi - lo) / 2;
        proof {
            assert(sq(mid as int) <= u128::MAX as int) by (nonlinear_arith)
                requires
                    0 <= mid as int,
                    mid as int <= 0xFFFF_FFFF_FFFF_FFFF,
            ;
        }
        if mid * mid <= n {
            lo = mid;
        } else {
            hi = mid;
        }
    }
    lo
}

/// Multiplying by one or by zero behaves as expected for raw values in
/// the saturation range.
pub proof fn lemma_fx_mul_units(a: int)
    requires
        -(FX_SAT as int) <= a <= FX_SAT as int,
    ensures
        fx_mul_v(a, FX_UNIT as int) == a,
        fx_mul_v(a, -(FX_UNIT as int)) == -a,
        fx_mul_v(a, 0) == 0,
        fx_mul_v(0, a) == 0,
{
    let u = FX_UNIT as int;
    assert(a * u == u * a) by (nonlinear_arith);
    vstd::arithmetic::div_mod::lemma_div_multiples_vanish(a, u);
    assert(a * (-u) == u * (-a)) by (nonlinear_arith);
    vstd::arithmetic::div_mod::lemma_div_multiples_vanish(-a, u);
    assert(a * 0 == u * 0) by (nonlinear_arith);
    assert(0 * a == u * 0) by (nonlinear_arith);
    vstd::arithmetic::div_mod::lemma_div_multiples_vanish(0, u);
}

/// The square root of one is one.
pub proof fn lemma_fx_sqrt_unit()
    ensures
        fx_sqrt_v(FX_UNIT as int) == FX_UNIT as int,
{
    let u = FX_UNIT as int;
    assert(sq(65536) == 65536 * 65536);
    assert(sq(65537) == 65537 * 65537);
    let c = isqrt_v(u * u);
    assert(0 <= c && sq(c) <= u * u && u * u < sq(c + 1));
    lemma_isqrt_unique(u * u, c, u);
}

/// A product of bounded scalars is bounded: the scaled product lands
/// within one quantum of the scaled bound.
pub proof fn lemma_fx_mul_bound(a: int, b: int, ba: int, bb: int)
    requires
        -ba <= a <= ba,
        -bb <= b <= bb,
        0 <= ba,
        0 <= bb,
    ensures
        -(fdiv(ba * bb, FX_UNIT as int) + 1) <= fx_mul_v(a, b) <= fdiv(ba * bb, FX_UNIT as int)
            + 1,
{
    let u = FX_UNIT as int;
    let cap = ba * bb;
    assert(-(ba * bb) <= a * b && a * b <= ba * bb) by (nonlinear_arith)
        requires
            -ba <= a <= ba,
            -bb <= b <= bb,
            0 <= ba,
            0 <= bb,
    ;
    assert(ba * bb >= 0) by (nonlinear_arith)
        requires
            0 <= ba,
            0 <= bb,
    ;
    vstd::arithmetic::div_mod::lemma_div_is_ordered(a * b, cap, u);
    vstd::arithmetic::div_mod::lemma_div_is_ordered(-cap, a * b, u);
    vstd::arithmetic::div_mod::lemma_div_pos_is_pos(cap, u);
    lemma_fundamental_div_mod(cap, u);
    let q = cap / u;
    if cap % u == 0 {
        lemma_fundamental_div_mod_converse(-cap, u, -q, 0);
    } else {
        lemma_fundamental_div_mod_converse(-cap, u, -q - 1, u - cap % u);
    }
}

/// Two integers bracketing the same square are equal.
pub(crate) proof fn lemma_isqrt_unique(n: int, a: int, b: int)
    requires
        0 <= a,
        0 <= b,
        sq(a) <= n,
        n < sq(a + 1),
        sq(b) <= n,
        n < sq(b + 1),
    ensures
        a == b,
{
    if a < b {
        assert(sq(a + 1) <= sq(b)) by (nonlinear_arith)
            requires
                0 <= a,
                a < b,
        ;
    }
    if b < a {
        assert(sq(b + 1) <= sq(a)) by (nonlinear_arith)
            requires
                0 <= b,
                b < a,
        ;
    }
}

} // verus!
