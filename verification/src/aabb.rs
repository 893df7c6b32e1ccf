//! Axis-aligned bounding boxes and the slab intersection test.

use vstd::prelude::*;
use crate::fixed::{clip, fx_div_v, Fx};
use crate::ray::{Ray, RayV};
use crate::vec3::{axis_v, Vec3, Vec3V};

verus! {

/// The mathematical value of a bounding box.
pub struct AabbV {
    pub min: Vec3V,
    pub max: Vec3V,
}

#[derive(Clone, Copy, Debug, PartialEq, Eq, Structural)]
pub struct Aabb {
    pub min: Vec3,
    pub max: Vec3,
}

pub open spec fn min2(a: int, b: int) -> int {
    if a <= b {
        a
    } else {
        b
    }
}

pub open spec fn max2(a: int, b: int) -> int {
    if a >= b {
        a
    } else {
        b
    }
}

/// Componentwise minimum of two vectors.
pub open spec fn vmin_v(a: Vec3V, b: Vec3V) -> Vec3V {
    Vec3V { x: min2(a.x, b.x), y: min2(a.y, b.y), z: min2(a.z, b.z) }
}

/// Componentwise maximum of two vectors.
pub open spec fn vmax_v(a: Vec3V, b: Vec3V) -> Vec3V {
    Vec3V { x: max2(a.x, b.x), y: max2(a.y, b.y), z: max2(a.z, b.z) }
}

/// The smallest box that holds both boxes.
pub open spec fn surround_v(a: AabbV, b: AabbV) -> AabbV {
    AabbV { min: vmin_v(a.min, b.min), max: vmax_v(a.max, b.max) }
}

/// Whether `outer` encloses `inner`.
pub open spec fn box_encloses_v(outer: AabbV, inner: AabbV) -> bool {
    &&& outer.min.x <= inner.min.x
    &&& outer.min.y <= inner.min.y
    &&& outer.min.z <= inner.min.z
    &&& inner.max.x <= outer.max.x
    &&& inner.max.y <= outer.max.y
    &&& inner.max.z <= outer.max.z
}

/// The parameter at which the ray enters one slab: the lesser of the
/// two plane crossings, picked by the direction's sign.
pub open spec fn slab_lo_v(lo: int, hi: int, o: int, d: int) -> int {
    if d > 0 {
        fx_div_v(clip(lo - o), d)
    } else {
        fx_div_v(clip(hi - o), d)
    }
}

/// The parameter at which the ray leaves one slab.
pub open spec fn slab_hi_v(lo: int, hi: int, o: int, d: int) -> int {
    if d > 0 {
        fx_div_v(clip(hi - o), d)
    } else {
        fx_div_v(clip(lo - o), d)
    }
}

/// A ray parallel to a slab fails outright when its coordinate lies
/// outside the slab; inside, the slab constrains nothing.
pub open spec fn axis_ok_v(b: AabbV, r: RayV, i: int) -> bool {
    axis_v(r.direction, i) != 0 || axis_v(b.min, i) <= axis_v(r.origin, i) <= axis_v(b.max, i)
}

/// The search interval's lower end after one axis shrinks it.
pub open spec fn axis_lo_v(b: AabbV, r: RayV, i: int, acc: int) -> int {
    let d = axis_v(r.direction, i);
    if d == 0 {
        acc
    } else {
        max2(acc, slab_lo_v(axis_v(b.min, i), axis_v(b.max, i), axis_v(r.origin, i), d))
    }
}

/// The search interval's upper end after one axis shrinks it.
pub open spec fn axis_hi_v(b: AabbV, r: RayV, i: int, acc: int) -> int {
    let d = axis_v(r.direction, i);
    if d == 0 {
        acc
    } else {
        min2(acc, slab_hi_v(axis_v(b.min, i), axis_v(b.max, i), axis_v(r.origin, i), d))
    }
}

/// The slab test: `[tmin, tmax]` is shrunk axis by axis to the
/// parameters at which the ray stays inside every slab, and the test
/// passes when no axis-parallel miss occurs and the shrunk interval
/// keeps a nonempty interior.
pub open spec fn aabb_hit_v(b: AabbV, r: RayV, tmin: int, tmax: int) -> bool {
    &&& axis_ok_v(b, r, 0)
    &&& axis_ok_v(b, r, 1)
    &&& axis_ok_v(b, r, 2)
    &&& axis_hi_v(b, r, 2, axis_hi_v(b, r, 1, axis_hi_v(b, r, 0, tmax))) > axis_lo_v(
        b,
        r,
        2,
        axis_lo_v(b, r, 1, axis_lo_v(b, r, 0, tmin)),
    )
}

impl View for Aabb {
    type V = AabbV;

    open spec fn view(&self) -> AabbV {
        AabbV { min: self.min@, max: self.max@ }
    }
}

impl Aabb {
    pub fn new(min: Vec3, max: Vec3) -> (r: Aabb)
        ensures
            r@ == (AabbV { min: min@, max: max@ }),
    {
        Aabb { min, max }
    }

    /// The smallest box that holds both boxes.
    pub fn surrounding_box(box0: &Aabb, box1: &Aabb) -> (r: Aabb)
        ensures
            r@ == surround_v(box0@, box1@),
    {
        let small = Vec3::new(
            box0.min.x.min(box1.min.x),
            box0.min.y.min(box1.min.y),
            box0.min.z.min(box1.min.z),
        );
        let big = Vec3::new(
            box0.max.x.max(box1.max.x),
            box0.max.y.max(box1.max.y),
            box0.max.z.max(box1.max.z),
        );
        Aabb { min: small, max: big }
    }

    /// Whether the ray can meet this box within `[t_min, t_max]`: the
    /// interval is shrunk by each axis in turn and fails as soon as it
    /// empties.
    pub fn hit(&self, ray: Ray, t_min: Fx, t_max: Fx) -> (r: bool)
        ensures
            r == aabb_hit_v(self@, ray@, t_min@, t_max@),
    {
        let ghost b = self@;
        let ghost rv = ray@;
        let (ok0, m0, x0) = slab_update(
            self.min.x, self.max.x, ray.origin.x, ray.direction.x, t_min, t_max,
        );
        if !ok0 || !m0.lt(x0) {
            proof {
                lemma_fold_bounds(b, rv, m0@, x0@);
            }
            return false;
        }
        let (ok1, m1, x1) = slab_update(
            self.min.y, self.max.y, ray.origin.y, ray.direction.y, m0, x0,
        );
        if !ok1 || !m1.lt(x1) {
            proof {
                lemma_fold_bounds(b, rv, m1@, x1@);
            }
            return false;
        }
        let (ok2, m2, x2) = slab_update(
            self.min.z, self.max.z, ray.origin.z, ray.direction.z, m1, x1,
        );
        if !ok2 || !m2.lt(x2) {
            return false;
        }
        true
    }
}

/// Shrink the current interval by one slab; a parallel axis either fails
/// outright or leaves the interval as it was.
fn slab_update(lo: Fx, hi: Fx, o: Fx, d: Fx, cur_min: Fx, cur_max: Fx) -> (r: (bool, Fx, Fx))
    ensures
        r.0 == (d@ != 0 || lo@ <= o@ <= hi@),
        d@ == 0 ==> r.1@ == cur_min@ && r.2@ == cur_max@,
        d@ != 0 ==> r.1@ == max2(cur_min@, slab_lo_v(lo@, hi@, o@, d@)) && r.2@ == min2(
            cur_max@,
            slab_hi_v(lo@, hi@, o@, d@),
        ),
{
    if d.is_zero() {
        (lo.le(o) && o.le(hi), cur_min, cur_max)
    } else {
        let ta = lo.sub(o).div(d);
        let tb = hi.sub(o).div(d);
        let (t0, t1) = if Fx::zero().lt(d) { (ta, tb) } else { (tb, ta) };
        (true, cur_min.max(t0), cur_max.min(t1))
    }
}

/// The remaining axes only shrink the interval further, so an interval
/// already empty after a prefix of axes stays empty at the end.
proof fn lemma_fold_bounds(b: AabbV, r: RayV, lo_acc: int, hi_acc: int)
    ensures
        axis_lo_v(b, r, 1, lo_acc) >= lo_acc,
        axis_lo_v(b, r, 2, lo_acc) >= lo_acc,
        axis_lo_v(b, r, 2, axis_lo_v(b, r, 1, lo_acc)) >= lo_acc,
        axis_hi_v(b, r, 1, hi_acc) <= hi_acc,
        axis_hi_v(b, r, 2, hi_acc) <= hi_acc,
        axis_hi_v(b, r, 2, axis_hi_v(b, r, 1, hi_acc)) <= hi_acc,
{
}

/// Exchange the x and y components.
pub open spec fn swap_xy_v(a: Vec3V) -> Vec3V {
    Vec3V { x: a.y, y: a.x, z: a.z }
}

/// Exchange the x and z components.
pub open spec fn swap_xz_v(a: Vec3V) -> Vec3V {
    Vec3V { x: a.z, y: a.y, z: a.x }
}

pub open spec fn swap_xy_box_v(b: AabbV) -> AabbV {
    AabbV { min: swap_xy_v(b.min), max: swap_xy_v(b.max) }
}

pub open spec fn swap_xz_box_v(b: AabbV) -> AabbV {
    AabbV { min: swap_xz_v(b.min), max: swap_xz_v(b.max) }
}

pub open spec fn swap_xy_ray_v(r: RayV) -> RayV {
    RayV { origin: swap_xy_v(r.origin), direction: swap_xy_v(r.direction), time: r.time }
}

pub open spec fn swap_xz_ray_v(r: RayV) -> RayV {
    RayV { origin: swap_xz_v(r.origin), direction: swap_xz_v(r.direction), time: r.time }
}

/// The slab test does not change when the x and y axes of the box and the
/// ray are exchanged together.  With `lemma_aabb_hit_swap_xz` this extends
/// to every permutation of the three axes, since the two exchanges
/// generate them all.
pub proof fn lemma_aabb_hit_swap_xy(b: AabbV, r: RayV, tmin: int, tmax: int)
    ensures
        aabb_hit_v(swap_xy_box_v(b), swap_xy_ray_v(r), tmin, tmax) == aabb_hit_v(
            b,
            r,
            tmin,
            tmax,
        ),
{
}

/// The slab test does not change when the x and z axes of the box and the
/// ray are exchanged together.
pub proof fn lemma_aabb_hit_swap_xz(b: AabbV, r: RayV, tmin: int, tmax: int)
    ensures
        aabb_hit_v(swap_xz_box_v(b), swap_xz_ray_v(r), tmin, tmax) == aabb_hit_v(
            b,
            r,
            tmin,
            tmax,
        ),
{
}

/// Division of fixed-point values by a fixed nonzero divisor `d` is
/// monotone in the numerator: increasing for positive `d`, decreasing
/// for negative `d`.
pub(crate) proof fn lemma_fx_div_mono(n1: int, n2: int, d: int)
    requires
        n1 <= n2,
        d != 0,
    ensures
        d > 0 ==> fx_div_v(n1, d) <= fx_div_v(n2, d),
        d < 0 ==> fx_div_v(n1, d) >= fx_div_v(n2, d),
{
    let u = crate::fixed::FX_UNIT as int;
    assert(n1 * u <= n2 * u) by (nonlinear_arith)
        requires
            n1 <= n2,
            u > 0,
    ;
    if d > 0 {
        vstd::arithmetic::div_mod::lemma_div_is_ordered(n1 * u, n2 * u, d);
    } else {
        vstd::arithmetic::div_mod::lemma_div_is_ordered(-(n2 * u), -(n1 * u), -d);
    }
}

/// An enclosing box widens one axis's slab and so shrinks the interval
/// less: its fold ends stay outside the inner box's.
proof fn lemma_axis_mono(
    outer: AabbV,
    inner: AabbV,
    r: RayV,
    i: int,
    lo_out: int,
    lo_in: int,
    hi_out: int,
    hi_in: int,
)
    requires
        box_encloses_v(outer, inner),
        0 <= i < 3,
        lo_out <= lo_in,
        hi_in <= hi_out,
    ensures
        axis_ok_v(inner, r, i) ==> axis_ok_v(outer, r, i),
        axis_lo_v(outer, r, i, lo_out) <= axis_lo_v(inner, r, i, lo_in),
        axis_hi_v(inner, r, i, hi_in) <= axis_hi_v(outer, r, i, hi_out),
{
    let d = axis_v(r.direction, i);
    let o = axis_v(r.origin, i);
    if d != 0 {
        lemma_fx_div_mono(
            clip(axis_v(outer.min, i) - o),
            clip(axis_v(inner.min, i) - o),
            d,
        );
        lemma_fx_div_mono(
            clip(axis_v(inner.max, i) - o),
            clip(axis_v(outer.max, i) - o),
            d,
        );
    }
}

/// The slab test is conservative under enclosure: if a ray can meet a box,
/// it can also meet every box that encloses it.
pub proof fn lemma_aabb_hit_mono(outer: AabbV, inner: AabbV, r: RayV, tmin: int, tmax: int)
    requires
        box_encloses_v(outer, inner),
        aabb_hit_v(inner, r, tmin, tmax),
    ensures
        aabb_hit_v(outer, r, tmin, tmax),
{
    lemma_axis_mono(outer, inner, r, 0, tmin, tmin, tmax, tmax);
    lemma_axis_mono(
        outer, inner, r, 1,
        axis_lo_v(outer, r, 0, tmin),
        axis_lo_v(inner, r, 0, tmin),
        axis_hi_v(outer, r, 0, tmax),
        axis_hi_v(inner, r, 0, tmax),
    );
    lemma_axis_mono(
        outer, inner, r, 2,
        axis_lo_v(outer, r, 1, axis_lo_v(outer, r, 0, tmin)),
        axis_lo_v(inner, r, 1, axis_lo_v(inner, r, 0, tmin)),
        axis_hi_v(outer, r, 1, axis_hi_v(outer, r, 0, tmax)),
        axis_hi_v(inner, r, 1, axis_hi_v(inner, r, 0, tmax)),
    );
}

/// A surrounding box encloses both of its arguments.
pub proof fn lemma_surround_encloses(a: AabbV, b: AabbV)
    ensures
        box_encloses_v(surround_v(a, b), a),
        box_encloses_v(surround_v(a, b), b),
{
}

/// Enclosure is transitive.
pub proof fn lemma_encloses_trans(a: AabbV, b: AabbV, c: AabbV)
    requires
        box_encloses_v(a, b),
        box_encloses_v(b, c),
    ensures
        box_encloses_v(a, c),
{
}

} // verus!
