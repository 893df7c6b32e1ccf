//! Lattice noise: trilinear interpolation of random unit vectors placed at
//! integer lattice points, smoothed with a Hermite weighting, plus a
//! multi-octave turbulence sum.

use vstd::prelude::*;
use crate::fixed::{clip, fx_mul_v, Fx, FX_UNIT};
use crate::rng::{rand_index, random_unit_vector};
use crate::vec3::{dot_v, scale_v, Vec3, Vec3V};

verus! {

/// The side of the lattice: coordinates wrap modulo this count.
pub const LATTICE: usize = 256;

pub struct Perlin {
    pub point_count: usize,
    pub ranvec: Vec<Vec3>,
    pub perm_x: Vec<u8>,
    pub perm_y: Vec<u8>,
    pub perm_z: Vec<u8>,
}

/// Well-formedness: the tables have the lattice size and every lattice
/// vector's components lie in `[-1, 1]`.
pub open spec fn perlin_wf(pl: Perlin) -> bool {
    &&& pl.point_count == LATTICE
    &&& pl.ranvec@.len() == LATTICE
    &&& pl.perm_x@.len() == LATTICE
    &&& pl.perm_y@.len() == LATTICE
    &&& pl.perm_z@.len() == LATTICE
    &&& forall|i: int|
        0 <= i < pl.ranvec@.len() ==> lattice_vec_ok(#[trigger] pl.ranvec@[i])
}

/// A lattice vector's components lie in `[-1, 1]`.
pub open spec fn lattice_vec_ok(v: Vec3) -> bool {
    &&& -(FX_UNIT as int) <= v@.x <= FX_UNIT as int
    &&& -(FX_UNIT as int) <= v@.y <= FX_UNIT as int
    &&& -(FX_UNIT as int) <= v@.z <= FX_UNIT as int
}

/// A permutation table holds each lattice index exactly once.
pub open spec fn perm_ok(t: Seq<u8>) -> bool {
    t.to_multiset() == Seq::new(LATTICE as nat, |i: int| i as u8).to_multiset()
}

/// Exchanging two entries leaves a table's contents unchanged.
proof fn lemma_swap_preserves_multiset(s: Seq<u8>, k: int, j: int)
    requires
        0 <= k < s.len(),
        0 <= j < s.len(),
    ensures
        s.update(k, s[j]).update(j, s[k]).to_multiset() == s.to_multiset(),
{
    s.to_multiset_ensures();
    if k == j {
        assert(s.update(k, s[j]).update(j, s[k]) =~= s);
    } else {
        let s1 = s.update(k, s[j]);
        vstd::seq_lib::to_multiset_update(s, k, s[j]);
        vstd::seq_lib::to_multiset_update(s1, j, s[k]);
        assert(s1[j] == s[j]);
        assert(s.contains(s[k]));
        assert(s.to_multiset().count(s[k]) > 0);
        assert(s.contains(s[j]));
        assert(s.to_multiset().count(s[j]) > 0);
        assert(s1.update(j, s[k]).to_multiset() =~= s.to_multiset());
    }
}

/// The Hermite smoothing `f * f * (3 - 2 f)` of a fraction.
pub open spec fn herm_v(f: int) -> int {
    fx_mul_v(fx_mul_v(f, f), clip(3 * (FX_UNIT as int) - fx_mul_v(2 * (FX_UNIT as int), f)))
}

/// The interpolation weight a corner offset `d` (0 or 1) gives a smoothed
/// fraction `s`: `s` itself at 1, `1 - s` at 0.
pub open spec fn wsel_v(d: int, s: int) -> int {
    if d == 1 {
        s
    } else {
        clip(FX_UNIT as int - s)
    }
}

/// The contribution of the lattice corner at offset `(di, dj, dk)`.
pub open spec fn corner_term_v(
    pl: Perlin,
    i2: int,
    j2: int,
    k2: int,
    fu: int,
    fv: int,
    fw: int,
    di: int,
    dj: int,
    dk: int,
) -> int {
    let h = pl.perm_x@[(i2 + di) % (LATTICE as int)] ^ pl.perm_y@[(j2 + dj) % (LATTICE as int)]
        ^ pl.perm_z@[(k2 + dk) % (LATTICE as int)];
    let c = pl.ranvec@[h as int]@;
    let wv = Vec3V {
        x: clip(fu - di * (FX_UNIT as int)),
        y: clip(fv - dj * (FX_UNIT as int)),
        z: clip(fw - dk * (FX_UNIT as int)),
    };
    fx_mul_v(
        fx_mul_v(fx_mul_v(wsel_v(di, herm_v(fu)), wsel_v(dj, herm_v(fv))), wsel_v(dk, herm_v(fw))),
        dot_v(c, wv),
    )
}

/// A coordinate reduced into one lattice period.
pub open spec fn lattice_reduce_v(x: int) -> int {
    x % ((LATTICE as int) * (FX_UNIT as int))
}

/// The noise value at a point: the clipped left-to-right sum of the eight
/// corner contributions around it.
pub open spec fn noise_v(pl: Perlin, p: Vec3V) -> int {
    let rx = lattice_reduce_v(p.x);
    let ry = lattice_reduce_v(p.y);
    let rz = lattice_reduce_v(p.z);
    let i2 = rx / (FX_UNIT as int);
    let j2 = ry / (FX_UNIT as int);
    let k2 = rz / (FX_UNIT as int);
    let fu = rx % (FX_UNIT as int);
    let fv = ry % (FX_UNIT as int);
    let fw = rz % (FX_UNIT as int);
    let t0 = corner_term_v(pl, i2, j2, k2, fu, fv, fw, 0, 0, 0);
    let t1 = corner_term_v(pl, i2, j2, k2, fu, fv, fw, 0, 0, 1);
    let t2 = corner_term_v(pl, i2, j2, k2, fu, fv, fw, 0, 1, 0);
    let t3 = corner_term_v(pl, i2, j2, k2, fu, fv, fw, 0, 1, 1);
    let t4 = corner_term_v(pl, i2, j2, k2, fu, fv, fw, 1, 0, 0);
    let t5 = corner_term_v(pl, i2, j2, k2, fu, fv, fw, 1, 0, 1);
    let t6 = corner_term_v(pl, i2, j2, k2, fu, fv, fw, 1, 1, 0);
    let t7 = corner_term_v(pl, i2, j2, k2, fu, fv, fw, 1, 1, 1);
    clip(clip(clip(clip(clip(clip(clip(t0 + t1) + t2) + t3) + t4) + t5) + t6) + t7)
}

/// The turbulence sum before taking its magnitude: each octave halves the
/// amplitude and doubles the frequency.
pub open spec fn trub_sum_v(pl: Perlin, p: Vec3V, depth: int) -> int
    decreases depth,
{
    if depth <= 0 {
        0
    } else {
        clip(noise_v(pl, p) + fx_mul_v(
            FX_UNIT as int / 2,
            trub_sum_v(pl, scale_v(p, 2 * (FX_UNIT as int)), depth - 1),
        ))
    }
}

/// The turbulence value: the magnitude of the octave sum.
pub open spec fn trub_v(pl: Perlin, p: Vec3V, depth: int) -> int {
    let s = trub_sum_v(pl, p, depth);
    if s >= 0 {
        s
    } else {
        -s
    }
}

/// A random permutation table: the identity table shuffled in place by
/// random exchanges, so each lattice index appears exactly once.
fn perlin_generate_perm() -> (r: Vec<u8>)
    ensures
        r@.len() == LATTICE,
        perm_ok(r@),
{
    let mut p: Vec<u8> = Vec::new();
    let mut i: usize = 0;
    while i < LATTICE
        invariant
            p@.len() == i,
            i <= LATTICE,
            forall|m: int| 0 <= m < i ==> p@[m] == m as u8,
        decreases LATTICE - i,
    {
        p.push(i as u8);
        i = i + 1;
    }
    proof {
        assert(p@ =~= Seq::new(LATTICE as nat, |m: int| m as u8));
    }
    let mut k: usize = LATTICE - 1;
    while k > 0
        invariant
            p@.len() == LATTICE,
            k < LATTICE,
            perm_ok(p@),
        decreases k,
    {
        let ghost pre = p@;
        let j = rand_index(k + 1);
        let a = p[k];
        let b = p[j];
        p.set(k, b);
        p.set(j, a);
        proof {
            lemma_swap_preserves_multiset(pre, k as int, j as int);
        }
        k = k - 1;
    }
    p
}

impl Perlin {
    pub fn new() -> (r: Perlin)
        ensures
            perlin_wf(r),
            perm_ok(r.perm_x@),
            perm_ok(r.perm_y@),
            perm_ok(r.perm_z@),
    {
        let mut ranvec: Vec<Vec3> = Vec::new();
        let mut i: usize = 0;
        while i < LATTICE
            invariant
                ranvec@.len() == i,
                i <= LATTICE,
                forall|m: int| 0 <= m < i ==> lattice_vec_ok(#[trigger] ranvec@[m]),
            decreases LATTICE - i,
        {
            ranvec.push(random_unit_vector());
            i = i + 1;
        }
        Perlin {
            point_count: LATTICE,
            ranvec,
            perm_x: perlin_generate_perm(),
            perm_y: perlin_generate_perm(),
            perm_z: perlin_generate_perm(),
        }
    }

    /// The smoothed lattice noise at a point.
    pub fn noise(&self, p: Vec3) -> (r: Fx)
        requires
            perlin_wf(*self),
        ensures
            r@ == noise_v(*self, p@),
            -(2400 * (FX_UNIT as int)) <= r@ <= 2400 * (FX_UNIT as int),
    {
        let period = Fx::from_int(LATTICE as i64);
        let rx = p.x.rem_euclid(period);
        let ry = p.y.rem_euclid(period);
        let rz = p.z.rem_euclid(period);
        let (i2, fu) = rx.floor_parts();
        let (j2, fv) = ry.floor_parts();
        let (k2, fw) = rz.floor_parts();
        proof {
            vstd::arithmetic::div_mod::lemma_div_pos_is_pos(rx@, FX_UNIT as int);
            vstd::arithmetic::div_mod::lemma_div_pos_is_pos(ry@, FX_UNIT as int);
            vstd::arithmetic::div_mod::lemma_div_pos_is_pos(rz@, FX_UNIT as int);
            assert(rx@ < (LATTICE as int) * (FX_UNIT as int));
            vstd::arithmetic::div_mod::lemma_div_is_ordered(
                rx@, (LATTICE as int) * (FX_UNIT as int) - 1, FX_UNIT as int);
            vstd::arithmetic::div_mod::lemma_div_is_ordered(
                ry@, (LATTICE as int) * (FX_UNIT as int) - 1, FX_UNIT as int);
            vstd::arithmetic::div_mod::lemma_div_is_ordered(
                rz@, (LATTICE as int) * (FX_UNIT as int) - 1, FX_UNIT as int);
            assert(((LATTICE as int) * (FX_UNIT as int) - 1) / (FX_UNIT as int)
                == LATTICE as int - 1);
        }
        let iu = i2 as usize;
        let ju = j2 as usize;
        let ku = k2 as usize;
        let mut accum = self.corner_term(iu, ju, ku, fu, fv, fw, 0, 0, 0);
        accum = accum.add(self.corner_term(iu, ju, ku, fu, fv, fw, 0, 0, 1));
        accum = accum.add(self.corner_term(iu, ju, ku, fu, fv, fw, 0, 1, 0));
        accum = accum.add(self.corner_term(iu, ju, ku, fu, fv, fw, 0, 1, 1));
        accum = accum.add(self.corner_term(iu, ju, ku, fu, fv, fw, 1, 0, 0));
        accum = accum.add(self.corner_term(iu, ju, ku, fu, fv, fw, 1, 0, 1));
        accum = accum.add(self.corner_term(iu, ju, ku, fu, fv, fw, 1, 1, 0));
        accum = accum.add(self.corner_term(iu, ju, ku, fu, fv, fw, 1, 1, 1));
        accum
    }

    /// One corner's contribution to the noise at a point.
    fn corner_term(
        &self,
        i2: usize,
        j2: usize,
        k2: usize,
        fu: Fx,
        fv: Fx,
        fw: Fx,
        di: usize,
        dj: usize,
        dk: usize,
    ) -> (r: Fx)
        requires
            perlin_wf(*self),
            i2 < LATTICE,
            j2 < LATTICE,
            k2 < LATTICE,
            di <= 1,
            dj <= 1,
            dk <= 1,
            0 <= fu@ < FX_UNIT as int,
            0 <= fv@ < FX_UNIT as int,
            0 <= fw@ < FX_UNIT as int,
        ensures
            r@ == corner_term_v(
                *self, i2 as int, j2 as int, k2 as int, fu@, fv@, fw@,
                di as int, dj as int, dk as int,
            ),
            -(300 * (FX_UNIT as int)) <= r@ <= 300 * (FX_UNIT as int),
    {
        let h = self.perm_x[(i2 + di) % LATTICE] ^ self.perm_y[(j2 + dj) % LATTICE]
            ^ self.perm_z[(k2 + dk) % LATTICE];
        let c = self.ranvec[h as usize];
        let wv = Vec3::new(
            fu.sub(Fx::from_int(di as i64)),
            fv.sub(Fx::from_int(dj as i64)),
            fw.sub(Fx::from_int(dk as i64)),
        );
        let wu = hermite(fu);
        let wvv = hermite(fv);
        let ww = hermite(fw);
        let w1 = weight_sel(di, wu);
        let w2 = weight_sel(dj, wvv);
        let w3 = weight_sel(dk, ww);
        let d = c.dot(wv);
        proof {
            let u = FX_UNIT as int;
            crate::fixed::lemma_fx_mul_bound(w1@, w2@, 4 * u, 4 * u);
            crate::fixed::lemma_fx_mul_bound(fx_mul_v(w1@, w2@), w3@, 17 * u, 4 * u);
            crate::fixed::lemma_fx_mul_bound(c@.x, wv@.x, u, u);
            crate::fixed::lemma_fx_mul_bound(c@.y, wv@.y, u, u);
            crate::fixed::lemma_fx_mul_bound(c@.z, wv@.z, u, u);
            crate::fixed::lemma_fx_mul_bound(fx_mul_v(fx_mul_v(w1@, w2@), w3@), d@, 69 * u, 4 * u);
        }
        w1.mul(w2).mul(w3).mul(d)
    }

    /// The turbulence at a point: octaves of noise at halving amplitude
    /// and doubling frequency, folded into a magnitude.
    pub fn trub(&self, p: Vec3, depth: u32) -> (r: Fx)
        requires
            perlin_wf(*self),
        ensures
            r@ == trub_v(*self, p@, depth as int),
    {
        self.trub_sum(p, depth).abs()
    }

    fn trub_sum(&self, p: Vec3, depth: u32) -> (r: Fx)
        requires
            perlin_wf(*self),
        ensures
            r@ == trub_sum_v(*self, p@, depth as int),
        decreases depth,
    {
        if depth == 0 {
            Fx::zero()
        } else {
            let rest = self.trub_sum(p.scale(Fx::from_int(2)), depth - 1);
            let half = Fx::from_raw((FX_UNIT / 2) as i64);
            self.noise(p).add(half.mul(rest))
        }
    }
}

/// The Hermite smoothing of a fraction, with a coarse interval bound.
fn hermite(f: Fx) -> (r: Fx)
    requires
        0 <= f@ < FX_UNIT as int,
    ensures
        r@ == herm_v(f@),
        0 <= r@ <= 4 * (FX_UNIT as int),
{
    proof {
        let u = FX_UNIT as int;
        crate::fixed::lemma_fx_mul_bound(f@, f@, u, u);
        assert(f@ * f@ >= 0) by (nonlinear_arith);
        vstd::arithmetic::div_mod::lemma_div_pos_is_pos(f@ * f@, u);
        let ff = fx_mul_v(f@, f@);
        crate::fixed::lemma_fx_mul_bound(2 * u, f@, 2 * u, u);
        assert((2 * u) * f@ >= 0) by (nonlinear_arith)
            requires
                f@ >= 0,
                u > 0,
        ;
        vstd::arithmetic::div_mod::lemma_div_pos_is_pos((2 * u) * f@, u);
        let factor = clip(3 * u - fx_mul_v(2 * u, f@));
        crate::fixed::lemma_fx_mul_bound(ff, factor, u + 1, 3 * u);
        assert(ff * factor >= 0) by (nonlinear_arith)
            requires
                ff >= 0,
                factor >= 0,
        ;
        vstd::arithmetic::div_mod::lemma_div_pos_is_pos(ff * factor, u);
    }
    f.mul(f).mul(Fx::from_int(3).sub(Fx::from_int(2).mul(f)))
}

/// The interpolation weight of a corner offset.
fn weight_sel(d: usize, s: Fx) -> (r: Fx)
    requires
        d <= 1,
        0 <= s@ <= 4 * (FX_UNIT as int),
    ensures
        r@ == wsel_v(d as int, s@),
        -(4 * (FX_UNIT as int)) <= r@ <= 4 * (FX_UNIT as int),
{
    if d == 1 {
        s
    } else {
        Fx::one().sub(s)
    }
}

} // verus!
