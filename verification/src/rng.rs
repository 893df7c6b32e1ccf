//! Random draws.
//!
//! The only unverified entry point is `rand_u32`; every shaped draw is
//! built from it in verified code.  Nothing can be promised about a
//! random value, so each contract states only what holds of every
//! outcome.

use vstd::prelude::*;
use crate::fixed::{Fx, FX_UNIT};
use crate::vec3::{dot_v, Vec3, Vec3V};

verus! {

/// Relies on `rand::Rng::gen` on the thread-local generator for a random
/// 32-bit value.  No property of the result is assumed.
#[verifier::external_body]
fn rand_u32() -> u32 {
    rand::Rng::gen::<u32>(&mut rand::thread_rng())
}

/// A random index below `n`.
pub fn rand_index(n: usize) -> (r: usize)
    requires
        0 < n,
    ensures
        r < n,
{
    (rand_u32() as usize) % n
}

/// A random scalar in `[0, 1)`.
pub fn rand_unit_fx() -> (r: Fx)
    ensures
        0 <= r@ < FX_UNIT as int,
{
    let raw = (rand_u32() % (FX_UNIT as u32)) as i64;
    Fx::from_raw(raw)
}

/// A random scalar in `[-1, 1)`.
pub fn rand_sym_fx() -> (r: Fx)
    ensures
        -(FX_UNIT as int) <= r@ < FX_UNIT as int,
{
    let raw = (rand_u32() % (2 * FX_UNIT as u32)) as i64 - (FX_UNIT as i64);
    Fx::from_raw(raw)
}

/// A random scalar in `[lo, hi]`; when the interval is empty, `lo`.
pub fn rand_fx_between(lo: Fx, hi: Fx) -> (r: Fx)
    ensures
        lo@ <= hi@ ==> lo@ <= r@ <= hi@,
        lo@ > hi@ ==> r@ == lo@,
{
    if hi.lt(lo) {
        return lo;
    }
    let width = hi.sub(lo);
    let u = rand_unit_fx();
    let step = width.mul(u);
    proof {
        use_type_invariant(lo);
        use_type_invariant(hi);
        use_type_invariant(width);
        lo.lemma_bounded();
        hi.lemma_bounded();
        width.lemma_bounded();
        let uu = FX_UNIT as int;
        assert(0 <= width@ * u@ && width@ * u@ <= width@ * uu) by (nonlinear_arith)
            requires
                0 <= width@,
                0 <= u@ < uu,
        ;
        vstd::arithmetic::div_mod::lemma_div_pos_is_pos(width@ * u@, uu);
        vstd::arithmetic::div_mod::lemma_div_is_ordered(width@ * u@, width@ * uu, uu);
        vstd::arithmetic::div_mod::lemma_div_by_multiple(width@, uu);
        assert(width@ <= hi@ - lo@);
    }
    lo.add(step)
}

/// A random point inside the unit ball (its squared length is below one).
pub fn random_in_unit_sphere() -> (r: Vec3)
    ensures
        0 <= dot_v(r@, r@) < FX_UNIT as int,
{
    let mut tries: usize = 0;
    while tries < 32
        invariant
            true,
        decreases 32 - tries,
    {
        let p = Vec3::new(rand_sym_fx(), rand_sym_fx(), rand_sym_fx());
        let lsq = p.length_squared();
        if Fx::zero().le(lsq) && lsq.lt(Fx::one()) {
            return p;
        }
        tries = tries + 1;
    }
    let half = Fx::from_raw((FX_UNIT / 2) as i64);
    let p = Vec3::new(half, Fx::zero(), Fx::zero());
    p
}

/// A random direction of (approximately) unit length: every component
/// lies in `[-1, 1]`.  A degenerate draw can normalize to the zero
/// vector, which callers treat as a fallback case.
pub fn random_unit_vector() -> (r: Vec3)
    ensures
        -(FX_UNIT as int) <= r@.x <= FX_UNIT as int,
        -(FX_UNIT as int) <= r@.y <= FX_UNIT as int,
        -(FX_UNIT as int) <= r@.z <= FX_UNIT as int,
{
    let p = random_in_unit_sphere();
    let u = p.unit_vector();
    let one = Fx::one();
    let neg_one = one.neg();
    Vec3::new(
        u.x.clamp(neg_one, one),
        u.y.clamp(neg_one, one),
        u.z.clamp(neg_one, one),
    )
}

/// A random point in the unit disk of the x-y plane.
pub fn random_in_unit_disk() -> (r: Vec3)
    ensures
        r@.z == 0,
        -(FX_UNIT as int) <= r@.x <= FX_UNIT as int,
        -(FX_UNIT as int) <= r@.y <= FX_UNIT as int,
{
    let mut tries: usize = 0;
    while tries < 32
        invariant
            true,
        decreases 32 - tries,
    {
        let p = Vec3::new(rand_sym_fx(), rand_sym_fx(), Fx::zero());
        let lsq = p.length_squared();
        if lsq.lt(Fx::one()) {
            let one = Fx::one();
            let neg_one = one.neg();
            return Vec3::new(p.x.clamp(neg_one, one), p.y.clamp(neg_one, one), Fx::zero());
        }
        tries = tries + 1;
    }
    Vec3::zero()
}

} // verus!
