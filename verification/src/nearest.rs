//! Nearest-hit semantics.
//!
//! `is_param` collects the candidate hit parameters of a deterministic
//! primitive.  The central theorem characterizes `first_hit_t_v` as the
//! least parameter inside the search window, and from it the bounding
//! volume hierarchy is shown to return exactly the parameter a
//! brute-force linear scan returns, provided each primitive's bounding
//! box test covers its own hits.

use vstd::prelude::*;
use crate::aabb::{aabb_hit_v, lemma_fx_div_mono};
use crate::fixed::{clip, fx_div_v, fx_mul_v, fx_sqrt_v, FX_UNIT};
use crate::hittable::{
    deterministic_v, first_hit_t_v, list_first_t_from, moving_center_v, rect_t_v,
    rotate_ray_v, translate_ray_v, Hittable,
};
use crate::ray::RayV;
use crate::vec3::{
    add_v, dot_v, length_squared_v, scale_v, sub_v, Vec3V,
};

verus! {

/// The candidate roots of the sphere quadratic.
pub open spec fn sphere_is_param(c: Vec3V, rad: int, r: RayV, t: int) -> bool {
    let oc = sub_v(r.origin, c);
    let a = length_squared_v(r.direction);
    let hb = dot_v(oc, r.direction);
    let cc = clip(length_squared_v(oc) - fx_mul_v(rad, rad));
    let disc = clip(fx_mul_v(hb, hb) - fx_mul_v(a, cc));
    let sd = fx_sqrt_v(disc);
    disc >= 0 && (t == fx_div_v(clip(-hb - sd), a) || t == fx_div_v(clip(-hb + sd), a))
}

/// The single plane-crossing parameter of an axis-aligned rectangle.
pub open spec fn rect_is_param(
    a0: int,
    a1: int,
    b0: int,
    b1: int,
    k: int,
    o: int,
    d: int,
    oa: int,
    da: int,
    ob: int,
    db: int,
    t: int,
) -> bool {
    let tc = rect_t_v(k, o, d);
    let a = clip(oa + fx_mul_v(tc, da));
    let b = clip(ob + fx_mul_v(tc, db));
    d != 0 && t == tc && a0 <= a <= a1 && b0 <= b <= b1
}

/// The single plane-crossing parameter of a triangle.
pub open spec fn triangle_is_param(tr: crate::hittable::Triangle, r: RayV, t: int) -> bool {
    let oa = sub_v(r.origin, tr.a@);
    let denom = dot_v(r.direction, tr.n@);
    let tc = fx_div_v(-dot_v(oa, tr.n@), denom);
    let p = add_v(oa, scale_v(r.direction, tc));
    let u = dot_v(tr.pc@, p);
    let v = dot_v(tr.pb@, p);
    denom != 0 && t == tc && 0 <= clip(u + v) <= FX_UNIT as int && 0 <= u <= FX_UNIT as int && 0
        <= v <= FX_UNIT as int
}

/// The candidate hit parameters of a deterministic primitive: the values
/// `first_hit_t_v` chooses among, independent of any search window.  A
/// participating medium has none.
pub open spec fn is_param(h: Hittable, r: RayV, t: int) -> bool
    decreases h, 0int,
{
    match h {
        Hittable::Sphere(s) => sphere_is_param(s.center@, s.radius@, r, t),
        Hittable::MovingSphere(s) => sphere_is_param(moving_center_v(s, r.time), s.radius@, r, t),
        Hittable::XYRect(s) => rect_is_param(
            s.x0@, s.x1@, s.y0@, s.y1@, s.k@,
            r.origin.z, r.direction.z,
            r.origin.x, r.direction.x,
            r.origin.y, r.direction.y,
            t,
        ),
        Hittable::XZRect(s) => rect_is_param(
            s.x0@, s.x1@, s.z0@, s.z1@, s.k@,
            r.origin.y, r.direction.y,
            r.origin.x, r.direction.x,
            r.origin.z, r.direction.z,
            t,
        ),
        Hittable::YZRect(s) => rect_is_param(
            s.y0@, s.y1@, s.z0@, s.z1@, s.k@,
            r.origin.x, r.direction.x,
            r.origin.y, r.direction.y,
            r.origin.z, r.direction.z,
            t,
        ),
        Hittable::Triangle(tr) => triangle_is_param(tr, r, t),
        Hittable::RectBox(b) => seq_param_from(b.sides.objects@, 0, r, t),
        Hittable::ConstantMedium(_) => false,
        Hittable::Translate(tl) => is_param(*tl.object, translate_ray_v(r, tl.offset@), t),
        Hittable::RotateY(rt) => is_param(
            *rt.object,
            rotate_ray_v(r, rt.sin_theta@, rt.cos_theta@),
            t,
        ),
        Hittable::List(l) => seq_param_from(l.objects@, 0, r, t),
        Hittable::Bvh(n) => is_param(*n.left, r, t) || is_param(*n.right, r, t),
    }
}

/// Some member at or after `i` has the parameter.
pub open spec fn seq_param_from(s: Seq<Hittable>, i: int, r: RayV, t: int) -> bool
    decreases s, s.len() - i,
{
    if i < 0 || i >= s.len() {
        false
    } else {
        is_param(s[i], r, t) || seq_param_from(s, i + 1, r, t)
    }
}

/// Some member of the sequence has the parameter.
pub open spec fn seq_has_param(s: Seq<Hittable>, r: RayV, t: int) -> bool {
    exists|j: int| 0 <= j < s.len() && #[trigger] is_param(s[j], r, t)
}

/// The recursive member chain agrees with the quantifier.
pub proof fn lemma_seq_param_iff(s: Seq<Hittable>, i: int, r: RayV, t: int)
    requires
        0 <= i <= s.len(),
    ensures
        seq_param_from(s, i, r, t) <==> (exists|j: int|
            i <= j < s.len() && #[trigger] is_param(s[j], r, t)),
    decreases s.len() - i,
{
    if i < s.len() {
        lemma_seq_param_iff(s, i + 1, r, t);
        if is_param(s[i], r, t) {
            assert(i <= i < s.len() && is_param(s[i], r, t));
        }
    }
}

/// `first_hit_t_v` is the least parameter in the window, and `None`
/// exactly when the window holds none.
pub open spec fn first_is_min(h: Hittable, r: RayV, tmin: int, tmax: int) -> bool {
    match first_hit_t_v(h, r, tmin, tmax) {
        Some(t) => is_param(h, r, t) && tmin <= t <= tmax && (forall|t2: int|
            #[trigger] is_param(h, r, t2) && tmin <= t2 <= tmax ==> t <= t2),
        None => forall|t2: int| #[trigger] is_param(h, r, t2) ==> !(tmin <= t2 <= tmax),
    }
}

/// Every box test inside the primitive covers the hits below it: a
/// hierarchy node's box passes whenever its subtree holds a parameter in
/// the window.
pub open spec fn covered_v(h: Hittable) -> bool
    decreases h, 0int,
{
    match h {
        Hittable::RectBox(b) => forall|j: int|
            0 <= j < b.sides.objects@.len() ==> covered_v(#[trigger] b.sides.objects@[j]),
        Hittable::ConstantMedium(_) => true,
        Hittable::Translate(tl) => covered_v(*tl.object),
        Hittable::RotateY(rt) => covered_v(*rt.object),
        Hittable::List(l) => forall|j: int|
            0 <= j < l.objects@.len() ==> covered_v(#[trigger] l.objects@[j]),
        Hittable::Bvh(n) => {
            &&& covered_v(*n.left)
            &&& covered_v(*n.right)
            &&& forall|rv: RayV, tmin: int, tmax: int, t: int|
                #![trigger is_param(*n.left, rv, t), aabb_hit_v(n.bounding_box@, rv, tmin, tmax)]
                #![trigger is_param(*n.right, rv, t), aabb_hit_v(n.bounding_box@, rv, tmin, tmax)]
                ((is_param(*n.left, rv, t) || is_param(*n.right, rv, t)) && tmin <= t <= tmax)
                    ==> aabb_hit_v(n.bounding_box@, rv, tmin, tmax)
        },
        _ => true,
    }
}

pub open spec fn seq_covered(s: Seq<Hittable>) -> bool {
    forall|j: int| 0 <= j < s.len() ==> covered_v(#[trigger] s[j])
}

/// A primitive's own box test passes whenever the primitive has a
/// parameter in the window.  This is the leaf-level hypothesis the
/// hierarchy theorem rests on: fixed-point rounding can break it for
/// rays that graze a box exactly on its boundary.
pub open spec fn box_covers_params(h: Hittable, t0: int, t1: int) -> bool {
    forall|rv: RayV, tmin: int, tmax: int, t: int|
        #![trigger is_param(h, rv, t), aabb_hit_v(crate::bvh::item_box(h, t0, t1), rv, tmin, tmax)]
        (is_param(h, rv, t) && tmin <= t <= tmax) ==> aabb_hit_v(
            crate::bvh::item_box(h, t0, t1),
            rv,
            tmin,
            tmax,
        )
}

/// The squared length of any vector is nonnegative.
pub proof fn lemma_dot_self_nonneg(v: Vec3V)
    ensures
        dot_v(v, v) >= 0,
{
    lemma_sq_fx_nonneg(v.x);
    lemma_sq_fx_nonneg(v.y);
    lemma_sq_fx_nonneg(v.z);
}

proof fn lemma_sq_fx_nonneg(x: int)
    ensures
        fx_mul_v(x, x) >= 0,
{
    assert(x * x >= 0) by (nonlinear_arith);
    vstd::arithmetic::div_mod::lemma_div_pos_is_pos(x * x, FX_UNIT as int);
}

/// The two sphere roots are ordered: the preferred root is never beyond
/// the fallback root.
proof fn lemma_sphere_roots_ordered(c: Vec3V, rad: int, r: RayV)
    ensures
        ({
            let oc = sub_v(r.origin, c);
            let a = length_squared_v(r.direction);
            let hb = dot_v(oc, r.direction);
            let cc = clip(length_squared_v(oc) - fx_mul_v(rad, rad));
            let disc = clip(fx_mul_v(hb, hb) - fx_mul_v(a, cc));
            let sd = fx_sqrt_v(disc);
            fx_div_v(clip(-hb - sd), a) <= fx_div_v(clip(-hb + sd), a)
        }),
{
    let oc = sub_v(r.origin, c);
    let a = length_squared_v(r.direction);
    let hb = dot_v(oc, r.direction);
    let cc = clip(length_squared_v(oc) - fx_mul_v(rad, rad));
    let disc = clip(fx_mul_v(hb, hb) - fx_mul_v(a, cc));
    let sd = fx_sqrt_v(disc);
    lemma_dot_self_nonneg(r.direction);
    assert(sd >= 0) by {
        if disc > 0 {
            lemma_sqrt_v_nonneg(disc);
        }
    }
    if a > 0 {
        lemma_fx_div_mono(clip(-hb - sd), clip(-hb + sd), a);
    }
}

/// The integer square root used by the scalar square root is always
/// nonnegative for positive inputs.
proof fn lemma_sqrt_v_nonneg(x: int)
    requires
        x > 0,
    ensures
        fx_sqrt_v(x) >= 0,
{
    let n = x * (FX_UNIT as int);
    assert(x * (FX_UNIT as int) > 0) by (nonlinear_arith)
        requires
            x > 0,
    ;
    if crate::fixed::isqrt_v(n) < 0 {
        let c = crate::fixed::isqrt_v(n);
        if exists|rr: int| 0 <= rr && #[trigger] crate::fixed::sq(rr) <= n && n < crate::fixed::sq(
            rr + 1,
        ) {
            assert(0 <= c && crate::fixed::sq(c) <= n && n < crate::fixed::sq(c + 1));
        } else {
            assert(false) by {
                lemma_isqrt_exists(n as nat);
            }
        }
    }
}

/// Every nonnegative integer has an integer square root.
proof fn lemma_isqrt_exists(n: nat)
    ensures
        exists|rr: int| 0 <= rr && #[trigger] crate::fixed::sq(rr) <= n && n < crate::fixed::sq(
            rr + 1,
        ),
    decreases n,
{
    if n == 0 {
        assert(crate::fixed::sq(0) <= 0 < crate::fixed::sq(1));
    } else {
        lemma_isqrt_exists((n - 1) as nat);
        let p = choose|rr: int| 0 <= rr && #[trigger] crate::fixed::sq(rr) <= n - 1 && n - 1
            < crate::fixed::sq(rr + 1);
        if n < crate::fixed::sq(p + 1) {
            assert(crate::fixed::sq(p) <= n < crate::fixed::sq(p + 1));
        } else {
            assert(n == crate::fixed::sq(p + 1));
            assert(crate::fixed::sq(p + 1) <= n < crate::fixed::sq(p + 2)) by (nonlinear_arith)
                requires
                    n == crate::fixed::sq(p + 1),
                    0 <= p,
            ;
        }
    }
}

/// The sphere solver returns the least root in the window.
proof fn lemma_sphere_char(c: Vec3V, rad: int, r: RayV, tmin: int, tmax: int)
    ensures
        ({
            match crate::hittable::sphere_first_t_v(c, rad, r, tmin, tmax) {
                Some(t) => sphere_is_param(c, rad, r, t) && tmin <= t <= tmax && (forall|t2: int|
                    #[trigger] sphere_is_param(c, rad, r, t2) && tmin <= t2 <= tmax ==> t <= t2),
                None => forall|t2: int|
                    #[trigger] sphere_is_param(c, rad, r, t2) ==> !(tmin <= t2 <= tmax),
            }
        }),
{
    lemma_sphere_roots_ordered(c, rad, r);
}

/// Carry the sphere-level characterization up to the variant level.
proof fn lemma_sphere_bridge(h: Hittable, c: Vec3V, rad: int, r: RayV, tmin: int, tmax: int)
    requires
        first_hit_t_v(h, r, tmin, tmax) == crate::hittable::sphere_first_t_v(c, rad, r, tmin, tmax),
        forall|t2: int| is_param(h, r, t2) <==> sphere_is_param(c, rad, r, t2),
        ({
            match crate::hittable::sphere_first_t_v(c, rad, r, tmin, tmax) {
                Some(t) => sphere_is_param(c, rad, r, t) && tmin <= t <= tmax && (forall|t2: int|
                    #[trigger] sphere_is_param(c, rad, r, t2) && tmin <= t2 <= tmax ==> t <= t2),
                None => forall|t2: int|
                    #[trigger] sphere_is_param(c, rad, r, t2) ==> !(tmin <= t2 <= tmax),
            }
        }),
    ensures
        first_is_min(h, r, tmin, tmax),
{
    match first_hit_t_v(h, r, tmin, tmax) {
        Some(t) => {
            assert forall|t2: int| is_param(h, r, t2) && tmin <= t2 <= tmax implies t <= t2 by {
                assert(sphere_is_param(c, rad, r, t2));
            }
        },
        None => {
            assert forall|t2: int| is_param(h, r, t2) implies !(tmin <= t2 <= tmax) by {
                assert(sphere_is_param(c, rad, r, t2));
            }
        },
    }
}

/// The central characterization: for a deterministic, covered primitive
/// the solver's answer is the least candidate parameter in the window,
/// and `None` exactly when the window holds none.
#[verifier::rlimit(100)]
pub proof fn lemma_first_hit_is_min(h: Hittable, r: RayV, tmin: int, tmax: int)
    requires
        deterministic_v(h),
        covered_v(h),
    ensures
        first_is_min(h, r, tmin, tmax),
    decreases h, 0int,
{
    match h {
        Hittable::Sphere(s) => {
            lemma_sphere_char(s.center@, s.radius@, r, tmin, tmax);
            lemma_sphere_bridge(h, s.center@, s.radius@, r, tmin, tmax);
            assert(first_is_min(h, r, tmin, tmax));
        },
        Hittable::MovingSphere(s) => {
            lemma_sphere_char(moving_center_v(s, r.time), s.radius@, r, tmin, tmax);
            lemma_sphere_bridge(h, moving_center_v(s, r.time), s.radius@, r, tmin, tmax);
            assert(first_is_min(h, r, tmin, tmax));
        },
        Hittable::XYRect(_) => {
            assert(first_is_min(h, r, tmin, tmax));
        },
        Hittable::XZRect(_) => {
            assert(first_is_min(h, r, tmin, tmax));
        },
        Hittable::YZRect(_) => {
            assert(first_is_min(h, r, tmin, tmax));
        },
        Hittable::Triangle(_) => {
            assert(first_is_min(h, r, tmin, tmax));
        },
        Hittable::RectBox(b) => {
            crate::bvh::lemma_list_det_iff(b.sides.objects@, 0);
            assert forall|t2: int| #[trigger] is_param(h, r, t2) <==> seq_has_param(
                b.sides.objects@, r, t2) by {
                lemma_is_param_rectbox(b, r, t2);
            }
            lemma_scan_bridge(h, b.sides.objects@, r, tmin, tmax);
            assert(first_is_min(h, r, tmin, tmax));
        },
        Hittable::ConstantMedium(_) => {
            assert(false);
        },
        Hittable::Translate(tl) => {
            let moved = translate_ray_v(r, tl.offset@);
            lemma_first_hit_is_min(*tl.object, moved, tmin, tmax);
            assert(first_hit_t_v(h, r, tmin, tmax) == first_hit_t_v(*tl.object, moved, tmin, tmax));
            match first_hit_t_v(h, r, tmin, tmax) {
                Some(t) => {
                    assert(is_param(*tl.object, moved, t));
                    assert(is_param(h, r, t));
                    assert forall|t2: int| #[trigger] is_param(h, r, t2) && tmin <= t2
                        <= tmax implies t <= t2 by {
                        assert(is_param(*tl.object, moved, t2));
                    }
                },
                None => {
                    assert forall|t2: int| #[trigger] is_param(h, r, t2) implies !(tmin <= t2
                        <= tmax) by {
                        assert(is_param(*tl.object, moved, t2));
                    }
                },
            }
            assert(first_is_min(h, r, tmin, tmax));
        },
        Hittable::RotateY(rt) => {
            let moved = rotate_ray_v(r, rt.sin_theta@, rt.cos_theta@);
            lemma_first_hit_is_min(*rt.object, moved, tmin, tmax);
            assert(first_hit_t_v(h, r, tmin, tmax) == first_hit_t_v(*rt.object, moved, tmin, tmax));
            match first_hit_t_v(h, r, tmin, tmax) {
                Some(t) => {
                    assert(is_param(*rt.object, moved, t));
                    assert(is_param(h, r, t));
                    assert forall|t2: int| #[trigger] is_param(h, r, t2) && tmin <= t2
                        <= tmax implies t <= t2 by {
                        assert(is_param(*rt.object, moved, t2));
                    }
                },
                None => {
                    assert forall|t2: int| #[trigger] is_param(h, r, t2) implies !(tmin <= t2
                        <= tmax) by {
                        assert(is_param(*rt.object, moved, t2));
                    }
                },
            }
            assert(first_is_min(h, r, tmin, tmax));
        },
        Hittable::List(l) => {
            crate::bvh::lemma_list_det_iff(l.objects@, 0);
            assert forall|t2: int| #[trigger] is_param(h, r, t2) <==> seq_has_param(
                l.objects@, r, t2) by {
                lemma_is_param_list(l, r, t2);
            }
            lemma_scan_bridge(h, l.objects@, r, tmin, tmax);
            assert(first_is_min(h, r, tmin, tmax));
        },
        Hittable::Bvh(n) => {
            if aabb_hit_v(n.bounding_box@, r, tmin, tmax) {
                lemma_first_hit_is_min(*n.left, r, tmin, tmax);
                lemma_first_hit_is_min(*n.right, r, tmin, tmax);
                let fa = first_hit_t_v(*n.left, r, tmin, tmax);
                let fb = first_hit_t_v(*n.right, r, tmin, tmax);
                assert(first_hit_t_v(h, r, tmin, tmax)
                    == crate::hittable::combine_t_v(fa, fb));
                match (fa, fb) {
                    (Some(ta), Some(tb)) => {
                        let t = if ta < tb { ta } else { tb };
                        assert(is_param(h, r, t));
                        assert forall|t2: int| #[trigger] is_param(h, r, t2) && tmin <= t2
                            <= tmax implies t <= t2 by {
                            if is_param(*n.left, r, t2) {
                                assert(ta <= t2);
                            } else {
                                assert(is_param(*n.right, r, t2));
                                assert(tb <= t2);
                            }
                        }
                    },
                    (Some(ta), None) => {
                        assert(is_param(h, r, ta));
                        assert forall|t2: int| #[trigger] is_param(h, r, t2) && tmin <= t2
                            <= tmax implies ta <= t2 by {
                            if is_param(*n.left, r, t2) {
                            } else {
                                assert(is_param(*n.right, r, t2));
                                assert(false);
                            }
                        }
                    },
                    (None, Some(tb)) => {
                        assert(is_param(h, r, tb));
                        assert forall|t2: int| #[trigger] is_param(h, r, t2) && tmin <= t2
                            <= tmax implies tb <= t2 by {
                            if is_param(*n.left, r, t2) {
                                assert(false);
                            } else {
                                assert(is_param(*n.right, r, t2));
                            }
                        }
                    },
                    (None, None) => {
                        assert forall|t2: int| #[trigger] is_param(h, r, t2) implies !(tmin <= t2
                            <= tmax) by {
                            assert(is_param(*n.left, r, t2) || is_param(*n.right, r, t2));
                        }
                    },
                }
                assert(first_is_min(h, r, tmin, tmax));
            } else {
                assert forall|t2: int| is_param(h, r, t2) implies !(tmin <= t2 <= tmax) by {
                    if tmin <= t2 <= tmax {
                        assert(is_param(*n.left, r, t2) || is_param(*n.right, r, t2));
                        assert(aabb_hit_v(n.bounding_box@, r, tmin, tmax));
                    }
                }
            }
        },
    }
}

/// A list-backed variant's parameters are its members' parameters.
proof fn lemma_is_param_list(l: crate::hittable::HittableList, r: RayV, t: int)
    ensures
        is_param(Hittable::List(l), r, t) <==> seq_has_param(l.objects@, r, t),
{
    lemma_seq_param_iff(l.objects@, 0, r, t);
}

/// A box's parameters are its six sides' parameters.
proof fn lemma_is_param_rectbox(b: crate::hittable::RectBox, r: RayV, t: int)
    ensures
        is_param(Hittable::RectBox(b), r, t) <==> seq_has_param(b.sides.objects@, r, t),
{
    lemma_seq_param_iff(b.sides.objects@, 0, r, t);
}

/// Carry the scan characterization up to a list-backed variant.
proof fn lemma_scan_bridge(h: Hittable, s: Seq<Hittable>, r: RayV, tmin: int, tmax: int)
    requires
        forall|j: int| 0 <= j < s.len() ==> deterministic_v(#[trigger] s[j]),
        seq_covered(s),
        first_hit_t_v(h, r, tmin, tmax) == list_first_t_from(s, 0, r, tmin, tmax, None::<int>),
        forall|t2: int| #[trigger] is_param(h, r, t2) <==> seq_has_param(s, r, t2),
    ensures
        first_is_min(h, r, tmin, tmax),
    decreases s, s.len() + 1,
{
    lemma_scan_char(s, 0, r, tmin, tmax, tmax, None::<int>);
    match first_hit_t_v(h, r, tmin, tmax) {
        Some(t) => {
            assert(is_param(h, r, t));
            assert forall|t2: int| #[trigger] is_param(h, r, t2) && tmin <= t2
                <= tmax implies t <= t2 by {
                assert(seq_has_param(s, r, t2));
                let j = choose|j: int| 0 <= j < s.len() && #[trigger] is_param(s[j], r, t2);
                assert(is_param(s[j], r, t2));
            }
        },
        None => {
            assert forall|t2: int| #[trigger] is_param(h, r, t2) implies !(tmin <= t2
                <= tmax) by {
                assert(seq_has_param(s, r, t2));
                let j = choose|j: int| 0 <= j < s.len() && #[trigger] is_param(s[j], r, t2);
                assert(is_param(s[j], r, t2));
            }
        },
    }
}

/// The shrinking linear scan finds the least parameter of the whole
/// window, given a correct prefix summary.
proof fn lemma_scan_char(
    s: Seq<Hittable>,
    i: int,
    r: RayV,
    tmin: int,
    tmax0: int,
    closest: int,
    cur: Option<int>,
)
    requires
        0 <= i <= s.len(),
        forall|j: int| 0 <= j < s.len() ==> deterministic_v(#[trigger] s[j]),
        seq_covered(s),
        match cur {
            Some(t) => closest == t && tmin <= t <= tmax0 && (exists|j: int|
                0 <= j < i && #[trigger] is_param(s[j], r, t)) && (forall|j: int, t2: int|
                0 <= j < i && #[trigger] is_param(s[j], r, t2) && tmin <= t2 <= tmax0 ==> t <= t2),
            None => closest == tmax0 && (forall|j: int, t2: int|
                0 <= j < i && #[trigger] is_param(s[j], r, t2) ==> !(tmin <= t2 <= tmax0)),
        },
    ensures
        match list_first_t_from(s, i, r, tmin, closest, cur) {
            Some(t) => seq_has_param(s, r, t) && tmin <= t <= tmax0 && (forall|j: int, t2: int|
                0 <= j < s.len() && #[trigger] is_param(s[j], r, t2) && tmin <= t2 <= tmax0 ==> t
                    <= t2),
            None => forall|j: int, t2: int|
                0 <= j < s.len() && #[trigger] is_param(s[j], r, t2) ==> !(tmin <= t2 <= tmax0),
        },
    decreases s, s.len() - i,
{
    if i == s.len() {
    } else {
        assert(deterministic_v(s[i]));
        assert(covered_v(s[i]));
        lemma_first_hit_is_min(s[i], r, tmin, closest);
        match first_hit_t_v(s[i], r, tmin, closest) {
            Some(tp) => {
                assert(is_param(s[i], r, tp));
                assert(closest <= tmax0);
                assert forall|j: int, t2: int|
                    0 <= j < i + 1 && #[trigger] is_param(s[j], r, t2) && tmin <= t2
                        <= tmax0 implies tp <= t2 by {
                    if j < i {
                        match cur {
                            Some(told) => {
                                assert(told <= t2);
                            },
                            None => {
                                assert(false);
                            },
                        }
                    } else {
                        if t2 <= closest {
                        } else {
                        }
                    }
                }
                lemma_scan_char(s, i + 1, r, tmin, tmax0, tp, Some(tp));
            },
            None => {
                match cur {
                    Some(told) => {
                        assert forall|j: int, t2: int|
                            0 <= j < i + 1 && #[trigger] is_param(s[j], r, t2) && tmin <= t2
                                <= tmax0 implies told <= t2 by {
                            if j == i {
                                if t2 <= closest {
                                    assert(false);
                                }
                            }
                        }
                    },
                    None => {
                        assert forall|j: int, t2: int|
                            0 <= j < i + 1 && #[trigger] is_param(s[j], r, t2) implies !(tmin <= t2
                            <= tmax0) by {
                            if j == i && tmin <= t2 <= tmax0 {
                                assert(false);
                            }
                        }
                    },
                }
                lemma_scan_char(s, i + 1, r, tmin, tmax0, closest, cur);
            },
        }
    }
}

/// A parameter the solver returns is always a genuine candidate
/// parameter of the primitive, whatever boxes were consulted.
pub proof fn lemma_first_some_is_param(h: Hittable, r: RayV, tmin: int, tmax: int)
    requires
        deterministic_v(h),
    ensures
        first_hit_t_v(h, r, tmin, tmax) matches Some(t) ==> is_param(h, r, t),
    decreases h, 0int,
{
    match h {
        Hittable::RectBox(b) => {
            crate::bvh::lemma_list_det_iff(b.sides.objects@, 0);
            lemma_scan_some_has_param(b.sides.objects@, 0, r, tmin, tmax, None::<int>);
            match first_hit_t_v(h, r, tmin, tmax) {
                Some(t) => lemma_seq_param_iff(b.sides.objects@, 0, r, t),
                None => (),
            }
        },
        Hittable::List(l) => {
            crate::bvh::lemma_list_det_iff(l.objects@, 0);
            lemma_scan_some_has_param(l.objects@, 0, r, tmin, tmax, None::<int>);
            match first_hit_t_v(h, r, tmin, tmax) {
                Some(t) => lemma_seq_param_iff(l.objects@, 0, r, t),
                None => (),
            }
        },
        Hittable::Translate(tl) => {
            lemma_first_some_is_param(*tl.object, translate_ray_v(r, tl.offset@), tmin, tmax);
        },
        Hittable::RotateY(rt) => {
            lemma_first_some_is_param(
                *rt.object,
                rotate_ray_v(r, rt.sin_theta@, rt.cos_theta@),
                tmin,
                tmax,
            );
        },
        Hittable::Bvh(n) => {
            lemma_first_some_is_param(*n.left, r, tmin, tmax);
            lemma_first_some_is_param(*n.right, r, tmin, tmax);
        },
        _ => {},
    }
}

/// Every parameter the shrinking scan can return, including the one
/// carried in, belongs to some member.
proof fn lemma_scan_some_has_param(
    s: Seq<Hittable>,
    i: int,
    r: RayV,
    tmin: int,
    closest: int,
    cur: Option<int>,
)
    requires
        0 <= i <= s.len(),
        forall|j: int| 0 <= j < s.len() ==> deterministic_v(#[trigger] s[j]),
        cur matches Some(tc) ==> seq_has_param(s, r, tc),
    ensures
        list_first_t_from(s, i, r, tmin, closest, cur) matches Some(t) ==> seq_has_param(s, r, t),
    decreases s, s.len() - i,
{
    if i < s.len() {
        lemma_first_some_is_param(s[i], r, tmin, closest);
        match first_hit_t_v(s[i], r, tmin, closest) {
            Some(tp) => {
                assert(is_param(s[i], r, tp));
                assert(seq_has_param(s, r, tp));
                lemma_scan_some_has_param(s, i + 1, r, tmin, tp, Some(tp));
            },
            None => {
                lemma_scan_some_has_param(s, i + 1, r, tmin, closest, cur);
            },
        }
    }
}

/// The hierarchy agrees with the brute-force linear scan: on a
/// deterministic, covered scene whose parameters coincide with those of a
/// flat sequence of primitives, the tree's nearest parameter equals the
/// scan's nearest parameter, for every ray and window.
pub proof fn lemma_bvh_matches_scan(
    tree: Hittable,
    s: Seq<Hittable>,
    r: RayV,
    tmin: int,
    tmax: int,
)
    requires
        deterministic_v(tree),
        covered_v(tree),
        forall|j: int| 0 <= j < s.len() ==> deterministic_v(#[trigger] s[j]),
        seq_covered(s),
        forall|rv: RayV, t: int| #[trigger] is_param(tree, rv, t) <==> seq_has_param(s, rv, t),
    ensures
        first_hit_t_v(tree, r, tmin, tmax) == list_first_t_from(s, 0, r, tmin, tmax, None::<int>),
{
    lemma_first_hit_is_min(tree, r, tmin, tmax);
    lemma_scan_char(s, 0, r, tmin, tmax, tmax, None::<int>);
    let a = first_hit_t_v(tree, r, tmin, tmax);
    let b = list_first_t_from(s, 0, r, tmin, tmax, None::<int>);
    match (a, b) {
        (Some(ta), Some(tb)) => {
            assert(is_param(tree, r, ta));
            assert(seq_has_param(s, r, ta));
            let j = choose|j: int| 0 <= j < s.len() && #[trigger] is_param(s[j], r, ta);
            assert(is_param(s[j], r, ta));
            assert(tb <= ta);
            assert(seq_has_param(s, r, tb));
            assert(is_param(tree, r, tb));
            assert(ta <= tb);
        },
        (Some(ta), None) => {
            assert(is_param(tree, r, ta));
            assert(seq_has_param(s, r, ta));
            let j = choose|j: int| 0 <= j < s.len() && #[trigger] is_param(s[j], r, ta);
            assert(is_param(s[j], r, ta));
            assert(false);
        },
        (None, Some(tb)) => {
            assert(seq_has_param(s, r, tb));
            assert(is_param(tree, r, tb));
            assert(false);
        },
        (None, None) => {},
    }
}

} // verus!
