//! The intersectable scene geometry: the hit record, the closed set of
//! primitive variants, and their intersection queries.
//!
//! Deterministic primitives are pinned exactly by `first_hit_t_v`; the
//! participating medium draws a random free path, so its contract states
//! only what holds of every outcome.

use vstd::prelude::*;
use std::sync::Arc;
use crate::aabb::{aabb_hit_v, max2, surround_v, Aabb, AabbV};
use crate::fixed::{clip, fx_div_v, fx_mul_v, fx_sqrt_v, Fx, FX_SAT, FX_UNIT};
use crate::material::{material_wf, Material};
use crate::ray::{ray_at_v, Ray, RayV};
use crate::rng::rand_unit_fx;
use crate::trig::{fx_acos_v, fx_atan2_v, fx_neg_ln, fx_neg_ln_v, fx_acos, fx_atan2, PI_RAW, TWO_PI_RAW};
use crate::vec3::{
    add_v, div_scale_v, dot_v, length_squared_v, length_v, neg_v, scale_v, sub_v, Vec3, Vec3V,
};

verus! {

/// Relies on `std::sync::Arc::clone`: the clone shares the same value.
#[verifier::external_body]
fn share_material(m: &Arc<Material>) -> (r: Arc<Material>)
    ensures
        r == *m,
{
    m.clone()
}

/// The thickness an axis-aligned rectangle's bounding box is given along
/// its flat axis.
pub const RECT_EPS_RAW: i64 = 7;

/// The outcome of one intersection query.  The normal always opposes the
/// incoming ray; `front_face` records whether the geometric outward
/// normal already did.
pub struct HitRecord<'a> {
    pub point: Vec3,
    pub normal: Vec3,
    pub material: &'a Material,
    pub t: Fx,
    pub u: Fx,
    pub v: Fx,
    pub front_face: bool,
}

/// Whether the outward normal already opposes the ray.
pub open spec fn front_face_v(outward: Vec3V, r: RayV) -> bool {
    dot_v(r.direction, outward) < 0
}

/// The stored normal: the outward normal, flipped if needed so that it
/// opposes the ray.
pub open spec fn face_normal_v(outward: Vec3V, r: RayV) -> Vec3V {
    if front_face_v(outward, r) {
        outward
    } else {
        neg_v(outward)
    }
}

impl<'a> HitRecord<'a> {
    /// Derive the stored normal and the `front_face` flag together.
    pub fn set_face_normal(outward_normal: Vec3, ray: &Ray) -> (r: (Vec3, bool))
        ensures
            r.0@ == face_normal_v(outward_normal@, ray@),
            r.1 == front_face_v(outward_normal@, ray@),
    {
        let front_face = ray.direction.dot(outward_normal).lt(Fx::zero());
        if front_face {
            (outward_normal, true)
        } else {
            (outward_normal.neg(), false)
        }
    }

    pub fn new(
        point: Vec3,
        t: Fx,
        u: Fx,
        v: Fx,
        outward_normal: Vec3,
        material: &'a Material,
        ray: Ray,
    ) -> (r: HitRecord<'a>)
        ensures
            r.point == point,
            r.t == t,
            r.u == u,
            r.v == v,
            r.material == material,
            r.normal@ == face_normal_v(outward_normal@, ray@),
            r.front_face == front_face_v(outward_normal@, ray@),
    {
        let (normal, front_face) = HitRecord::set_face_normal(outward_normal, &ray);
        HitRecord { point, normal, material, t, u, v, front_face }
    }
}

pub struct Sphere {
    pub center: Vec3,
    pub radius: Fx,
    pub material: Arc<Material>,
}

pub struct MovingSphere {
    pub center0: Vec3,
    pub center1: Vec3,
    pub time0: Fx,
    pub time1: Fx,
    pub radius: Fx,
    pub material: Arc<Material>,
}

pub struct XYRect {
    pub x0: Fx,
    pub x1: Fx,
    pub y0: Fx,
    pub y1: Fx,
    pub k: Fx,
    pub material: Arc<Material>,
}

pub struct XZRect {
    pub x0: Fx,
    pub x1: Fx,
    pub z0: Fx,
    pub z1: Fx,
    pub k: Fx,
    pub material: Arc<Material>,
}

pub struct YZRect {
    pub y0: Fx,
    pub y1: Fx,
    pub z0: Fx,
    pub z1: Fx,
    pub k: Fx,
    pub material: Arc<Material>,
}

pub struct Triangle {
    pub a: Vec3,
    pub n: Vec3,
    pub pc: Vec3,
    pub pb: Vec3,
    pub bbox: Aabb,
    pub material: Arc<Material>,
}

pub struct RectBox {
    pub min: Vec3,
    pub max: Vec3,
    pub sides: HittableList,
}

pub struct ConstantMedium {
    pub boundary: Box<Hittable>,
    pub material: Arc<Material>,
    pub neg_inv_density: Fx,
}

pub struct Translate {
    pub object: Box<Hittable>,
    pub offset: Vec3,
}

pub struct RotateY {
    pub object: Box<Hittable>,
    pub sin_theta: Fx,
    pub cos_theta: Fx,
    pub bbox: Option<Aabb>,
}

pub struct HittableList {
    pub objects: Vec<Hittable>,
}

pub struct BVHNode {
    pub left: Box<Hittable>,
    pub right: Box<Hittable>,
    pub bounding_box: Aabb,
}

/// The closed set of primitive variants.
pub enum Hittable {
    Sphere(Sphere),
    MovingSphere(MovingSphere),
    XYRect(XYRect),
    XZRect(XZRect),
    YZRect(YZRect),
    Triangle(Triangle),
    RectBox(RectBox),
    ConstantMedium(ConstantMedium),
    Translate(Translate),
    RotateY(RotateY),
    List(HittableList),
    Bvh(BVHNode),
}

/// Every material in the scene is well-formed.
pub open spec fn hittable_wf(h: Hittable) -> bool
    decreases h, 0int,
{
    match h {
        Hittable::Sphere(s) => material_wf(*s.material),
        Hittable::MovingSphere(s) => material_wf(*s.material),
        Hittable::XYRect(s) => material_wf(*s.material),
        Hittable::XZRect(s) => material_wf(*s.material),
        Hittable::YZRect(s) => material_wf(*s.material),
        Hittable::Triangle(s) => material_wf(*s.material),
        Hittable::RectBox(b) => list_wf(b.sides.objects@, 0),
        Hittable::ConstantMedium(m) => material_wf(*m.material) && hittable_wf(*m.boundary),
        Hittable::Translate(t) => hittable_wf(*t.object),
        Hittable::RotateY(t) => hittable_wf(*t.object),
        Hittable::List(l) => list_wf(l.objects@, 0),
        Hittable::Bvh(n) => hittable_wf(*n.left) && hittable_wf(*n.right),
    }
}

pub open spec fn list_wf(s: Seq<Hittable>, i: int) -> bool
    decreases s, s.len() - i,
{
    if i >= s.len() || i < 0 {
        true
    } else {
        hittable_wf(s[i]) && list_wf(s, i + 1)
    }
}

/// No participating medium anywhere: every intersection is a function of
/// the scene and the ray alone.
pub open spec fn deterministic_v(h: Hittable) -> bool
    decreases h, 0int,
{
    match h {
        Hittable::ConstantMedium(_) => false,
        Hittable::RectBox(b) => list_det(b.sides.objects@, 0),
        Hittable::Translate(t) => deterministic_v(*t.object),
        Hittable::RotateY(t) => deterministic_v(*t.object),
        Hittable::List(l) => list_det(l.objects@, 0),
        Hittable::Bvh(n) => deterministic_v(*n.left) && deterministic_v(*n.right),
        _ => true,
    }
}

pub open spec fn list_det(s: Seq<Hittable>, i: int) -> bool
    decreases s, s.len() - i,
{
    if i >= s.len() || i < 0 {
        true
    } else {
        deterministic_v(s[i]) && list_det(s, i + 1)
    }
}

/// The first sphere root inside `[tmin, tmax]`: the smaller root is
/// preferred, the larger one is a fallback.
pub open spec fn sphere_first_t_v(c: Vec3V, rad: int, r: RayV, tmin: int, tmax: int) -> Option<
    int,
> {
    let oc = sub_v(r.origin, c);
    let a = length_squared_v(r.direction);
    let hb = dot_v(oc, r.direction);
    let cc = clip(length_squared_v(oc) - fx_mul_v(rad, rad));
    let disc = clip(fx_mul_v(hb, hb) - fx_mul_v(a, cc));
    if disc < 0 {
        None
    } else {
        let sd = fx_sqrt_v(disc);
        let r1 = fx_div_v(clip(-hb - sd), a);
        let r2 = fx_div_v(clip(-hb + sd), a);
        if tmin <= r1 <= tmax {
            Some(r1)
        } else if tmin <= r2 <= tmax {
            Some(r2)
        } else {
            None
        }
    }
}

/// The outward normal of a sphere at a surface point.
pub open spec fn sphere_outward_v(c: Vec3V, rad: int, p: Vec3V) -> Vec3V {
    div_scale_v(sub_v(p, c), rad)
}

/// The longitude coordinate of a spherical direction.
pub open spec fn sphere_u_v(n: Vec3V) -> int {
    fx_div_v(clip(fx_atan2_v(-n.z, n.x) + PI_RAW as int), TWO_PI_RAW as int)
}

/// The latitude coordinate of a spherical direction.
pub open spec fn sphere_v_v(n: Vec3V) -> int {
    fx_div_v(fx_acos_v(n.y), PI_RAW as int)
}

/// The interpolated center of a moving sphere at a time.
pub open spec fn moving_center_v(s: MovingSphere, time: int) -> Vec3V {
    add_v(
        s.center0@,
        scale_v(
            sub_v(s.center1@, s.center0@),
            fx_div_v(clip(time - s.time0@), clip(s.time1@ - s.time0@)),
        ),
    )
}

/// The plane-crossing parameter of an axis-aligned rectangle along the
/// fixed axis: `k` minus the origin coordinate, over the direction
/// coordinate.  A parallel ray never hits.
pub open spec fn rect_t_v(k: int, o: int, d: int) -> int {
    fx_div_v(clip(k - o), d)
}

/// The first rectangle hit in `[tmin, tmax]`, generic over the two free
/// axes: `oa, da` and `ob, db` are the origin and direction coordinates
/// on them, bounded by `[a0, a1]` and `[b0, b1]`.
pub open spec fn rect_first_t_v(
    a0: int,
    a1: int,
    b0: int,
    b1: int,
    k: int,
    o: int,
    d: int,
    oa: int,
    da: int,
    ob: int,
    db: int,
    tmin: int,
    tmax: int,
) -> Option<int> {
    if d == 0 {
        None
    } else {
        let t = rect_t_v(k, o, d);
        if !(tmin <= t <= tmax) {
            None
        } else {
            let a = clip(oa + fx_mul_v(t, da));
            let b = clip(ob + fx_mul_v(t, db));
            if a0 <= a <= a1 && b0 <= b <= b1 {
                Some(t)
            } else {
                None
            }
        }
    }
}

/// A rectangle's surface coordinate on one axis.
pub open spec fn rect_coord_v(a: int, a0: int, a1: int) -> int {
    fx_div_v(clip(a - a0), clip(a1 - a0))
}

/// The triangle's plane parameter; a ray parallel to the plane never
/// hits.
pub open spec fn triangle_first_t_v(tr: Triangle, r: RayV, tmin: int, tmax: int) -> Option<int> {
    let oa = sub_v(r.origin, tr.a@);
    let denom = dot_v(r.direction, tr.n@);
    if denom == 0 {
        None
    } else {
        let t = fx_div_v(-dot_v(oa, tr.n@), denom);
        if !(tmin <= t <= tmax) {
            None
        } else {
            let p = add_v(oa, scale_v(r.direction, t));
            let u = dot_v(tr.pc@, p);
            let v = dot_v(tr.pb@, p);
            if 0 <= clip(u + v) <= FX_UNIT as int && 0 <= u <= FX_UNIT as int && 0 <= v
                <= FX_UNIT as int {
                Some(t)
            } else {
                None
            }
        }
    }
}

pub open spec fn triangle_uv_v(tr: Triangle, r: RayV, t: int) -> (int, int) {
    let oa = sub_v(r.origin, tr.a@);
    let p = add_v(oa, scale_v(r.direction, t));
    (dot_v(tr.pc@, p), dot_v(tr.pb@, p))
}

/// The ray as seen by a translated object.
pub open spec fn translate_ray_v(r: RayV, offset: Vec3V) -> RayV {
    RayV { origin: sub_v(r.origin, offset), direction: r.direction, time: r.time }
}

/// A vector rotated into a y-rotated object's frame.
pub open spec fn rotate_in_v(v: Vec3V, sin_t: int, cos_t: int) -> Vec3V {
    Vec3V {
        x: clip(fx_mul_v(cos_t, v.x) - fx_mul_v(sin_t, v.z)),
        y: v.y,
        z: clip(fx_mul_v(sin_t, v.x) + fx_mul_v(cos_t, v.z)),
    }
}

/// A vector rotated back out of that frame.
pub open spec fn rotate_out_v(v: Vec3V, sin_t: int, cos_t: int) -> Vec3V {
    Vec3V {
        x: clip(fx_mul_v(cos_t, v.x) + fx_mul_v(sin_t, v.z)),
        y: v.y,
        z: clip(-fx_mul_v(sin_t, v.x) + fx_mul_v(cos_t, v.z)),
    }
}

pub open spec fn rotate_ray_v(r: RayV, sin_t: int, cos_t: int) -> RayV {
    RayV {
        origin: rotate_in_v(r.origin, sin_t, cos_t),
        direction: rotate_in_v(r.direction, sin_t, cos_t),
        time: r.time,
    }
}

/// The nearer of two candidate parameters; the left one wins ties.
pub open spec fn combine_t_v(a: Option<int>, b: Option<int>) -> Option<int> {
    match (a, b) {
        (None, None) => None,
        (Some(t), None) => Some(t),
        (None, Some(t)) => Some(t),
        (Some(ta), Some(tb)) => if ta < tb {
            Some(ta)
        } else {
            Some(tb)
        },
    }
}

/// The parameter of the nearest hit of a deterministic primitive inside
/// `[tmin, tmax]`, or `None`.  A participating medium has no
/// deterministic parameter and yields `None` here.
pub open spec fn first_hit_t_v(h: Hittable, r: RayV, tmin: int, tmax: int) -> Option<int>
    decreases h, 0int,
{
    match h {
        Hittable::Sphere(s) => sphere_first_t_v(s.center@, s.radius@, r, tmin, tmax),
        Hittable::MovingSphere(s) => sphere_first_t_v(
            moving_center_v(s, r.time),
            s.radius@,
            r,
            tmin,
            tmax,
        ),
        Hittable::XYRect(s) => rect_first_t_v(
            s.x0@, s.x1@, s.y0@, s.y1@, s.k@,
            r.origin.z, r.direction.z,
            r.origin.x, r.direction.x,
            r.origin.y, r.direction.y,
            tmin, tmax,
        ),
        Hittable::XZRect(s) => rect_first_t_v(
            s.x0@, s.x1@, s.z0@, s.z1@, s.k@,
            r.origin.y, r.direction.y,
            r.origin.x, r.direction.x,
            r.origin.z, r.direction.z,
            tmin, tmax,
        ),
        Hittable::YZRect(s) => rect_first_t_v(
            s.y0@, s.y1@, s.z0@, s.z1@, s.k@,
            r.origin.x, r.direction.x,
            r.origin.y, r.direction.y,
            r.origin.z, r.direction.z,
            tmin, tmax,
        ),
        Hittable::Triangle(tr) => triangle_first_t_v(tr, r, tmin, tmax),
        Hittable::RectBox(b) => list_first_t_from(b.sides.objects@, 0, r, tmin, tmax, None),
        Hittable::ConstantMedium(_) => None,
        Hittable::Translate(t) => first_hit_t_v(*t.object, translate_ray_v(r, t.offset@), tmin, tmax),
        Hittable::RotateY(t) => first_hit_t_v(
            *t.object,
            rotate_ray_v(r, t.sin_theta@, t.cos_theta@),
            tmin,
            tmax,
        ),
        Hittable::List(l) => list_first_t_from(l.objects@, 0, r, tmin, tmax, None),
        Hittable::Bvh(n) => if !aabb_hit_v(n.bounding_box@, r, tmin, tmax) {
            None
        } else {
            combine_t_v(
                first_hit_t_v(*n.left, r, tmin, tmax),
                first_hit_t_v(*n.right, r, tmin, tmax),
            )
        },
    }
}

/// The linear scan over a list: each hit shrinks the upper bound of the
/// search window, so the last accepted hit is the nearest.
pub open spec fn list_first_t_from(
    s: Seq<Hittable>,
    i: int,
    r: RayV,
    tmin: int,
    closest: int,
    cur: Option<int>,
) -> Option<int>
    decreases s, s.len() - i,
{
    if i < 0 || i >= s.len() {
        cur
    } else {
        match first_hit_t_v(s[i], r, tmin, closest) {
            Some(t) => list_first_t_from(s, i + 1, r, tmin, t, Some(t)),
            None => list_first_t_from(s, i + 1, r, tmin, closest, cur),
        }
    }
}

/// The bounding box of a primitive over a shutter interval; `None` for a
/// list with no members.
pub open spec fn bounding_box_v(h: Hittable, t0: int, t1: int) -> Option<AabbV>
    decreases h, 0int,
{
    match h {
        Hittable::Sphere(s) => Some(
            AabbV {
                min: sub_v(s.center@, rad3_v(s.radius@)),
                max: add_v(s.center@, rad3_v(s.radius@)),
            },
        ),
        Hittable::MovingSphere(s) => {
            let c0 = moving_center_v(s, t0);
            let c1 = moving_center_v(s, t1);
            Some(
                surround_v(
                    AabbV { min: sub_v(c0, rad3_v(s.radius@)), max: add_v(c0, rad3_v(s.radius@)) },
                    AabbV { min: sub_v(c1, rad3_v(s.radius@)), max: add_v(c1, rad3_v(s.radius@)) },
                ),
            )
        },
        Hittable::XYRect(s) => Some(
            AabbV {
                min: Vec3V { x: s.x0@, y: s.y0@, z: clip(s.k@ - RECT_EPS_RAW as int) },
                max: Vec3V { x: s.x1@, y: s.y1@, z: clip(s.k@ + RECT_EPS_RAW as int) },
            },
        ),
        Hittable::XZRect(s) => Some(
            AabbV {
                min: Vec3V { x: s.x0@, y: clip(s.k@ - RECT_EPS_RAW as int), z: s.z0@ },
                max: Vec3V { x: s.x1@, y: clip(s.k@ + RECT_EPS_RAW as int), z: s.z1@ },
            },
        ),
        Hittable::YZRect(s) => Some(
            AabbV {
                min: Vec3V { x: clip(s.k@ - RECT_EPS_RAW as int), y: s.y0@, z: s.z0@ },
                max: Vec3V { x: clip(s.k@ + RECT_EPS_RAW as int), y: s.y1@, z: s.z1@ },
            },
        ),
        Hittable::Triangle(tr) => Some(tr.bbox@),
        Hittable::RectBox(b) => Some(AabbV { min: b.min@, max: b.max@ }),
        Hittable::ConstantMedium(m) => bounding_box_v(*m.boundary, t0, t1),
        Hittable::Translate(t) => match bounding_box_v(*t.object, t0, t1) {
            Some(b) => Some(
                AabbV { min: add_v(b.min, t.offset@), max: add_v(b.max, t.offset@) },
            ),
            None => None,
        },
        Hittable::RotateY(t) => match t.bbox {
            Some(b) => Some(b@),
            None => None,
        },
        Hittable::List(l) => list_box_from(l.objects@, 0, t0, t1),
        Hittable::Bvh(n) => Some(n.bounding_box@),
    }
}

pub open spec fn rad3_v(rad: int) -> Vec3V {
    Vec3V { x: rad, y: rad, z: rad }
}

pub open spec fn unit_x_v() -> Vec3V {
    Vec3V { x: FX_UNIT as int, y: 0, z: 0 }
}

pub open spec fn unit_y_v() -> Vec3V {
    Vec3V { x: 0, y: FX_UNIT as int, z: 0 }
}

pub open spec fn unit_z_v() -> Vec3V {
    Vec3V { x: 0, y: 0, z: FX_UNIT as int }
}

/// A rectangle's free-axis coordinate at parameter `t`.
pub open spec fn rect_at_v(o: int, d: int, t: int) -> int {
    clip(o + fx_mul_v(t, d))
}

/// The fold of the members' boxes; `None` when the list is empty or a
/// member has no box.
pub open spec fn list_box_from(s: Seq<Hittable>, i: int, t0: int, t1: int) -> Option<AabbV>
    decreases s, s.len() - i,
{
    if i < 0 || i >= s.len() {
        None
    } else {
        match bounding_box_v(s[i], t0, t1) {
            None => None,
            Some(b) => if i == s.len() - 1 {
                Some(b)
            } else {
                match list_box_from(s, i + 1, t0, t1) {
                    None => None,
                    Some(rest) => Some(surround_v(b, rest)),
                }
            },
        }
    }
}

/// The result's parameter agrees with a spec-level parameter.
pub open spec fn t_matches(r: Option<HitRecord>, ft: Option<int>) -> bool {
    match (r, ft) {
        (Some(rec), Some(t)) => rec.t@ == t,
        (None, None) => true,
        _ => false,
    }
}

/// The record a sphere hit carries: the point on the ray, the outward
/// normal with its facing flag, the spherical surface coordinates, and
/// the sphere's material.
pub open spec fn sphere_rec_clauses<'a>(
    c: Vec3V,
    rad: int,
    mat: Material,
    r: RayV,
    rec: HitRecord<'a>,
) -> bool {
    let p = ray_at_v(r, rec.t@);
    let outward = sphere_outward_v(c, rad, p);
    &&& rec.point@ == p
    &&& *rec.material == mat
    &&& rec.normal@ == face_normal_v(outward, r)
    &&& rec.front_face == front_face_v(outward, r)
    &&& rec.u@ == sphere_u_v(outward)
    &&& rec.v@ == sphere_v_v(outward)
}

/// The record an axis-aligned rectangle hit carries: the point on the
/// ray, the surface coordinates along the two free axes `a` and `b`, the
/// flipped unit normal, and the rectangle's material.
pub open spec fn rect_rec_clauses<'a>(
    a0: int,
    a1: int,
    b0: int,
    b1: int,
    oa: int,
    da: int,
    ob: int,
    db: int,
    normal: Vec3V,
    mat: Material,
    r: RayV,
    rec: HitRecord<'a>,
) -> bool {
    &&& rec.point@ == ray_at_v(r, rec.t@)
    &&& *rec.material == mat
    &&& rec.u@ == rect_coord_v(rect_at_v(oa, da, rec.t@), a0, a1)
    &&& rec.v@ == rect_coord_v(rect_at_v(ob, db, rec.t@), b0, b1)
    &&& rec.normal@ == face_normal_v(normal, r)
    &&& rec.front_face == front_face_v(normal, r)
}

/// The record a triangle hit carries.
pub open spec fn triangle_rec_clauses<'a>(tr: Triangle, r: RayV, rec: HitRecord<'a>) -> bool {
    &&& rec.point@ == ray_at_v(r, rec.t@)
    &&& *rec.material == *tr.material
    &&& rec.normal@ == face_normal_v(tr.n@, r)
    &&& rec.front_face == front_face_v(tr.n@, r)
    &&& (rec.u@, rec.v@) == triangle_uv_v(tr, r, rec.t@)
}

/// Where a returned record comes from: a leaf pins the record exactly
/// from its parameter; a wrapper relates it to a child's record; an
/// aggregate passes some member's record through; the medium pins its
/// fixed normal and coordinates.
pub open spec fn rec_from<'a>(h: Hittable, r: RayV, rec: HitRecord<'a>) -> bool
    decreases h, 0int,
{
    match h {
        Hittable::Sphere(s) => sphere_rec_clauses(s.center@, s.radius@, *s.material, r, rec),
        Hittable::MovingSphere(s) => sphere_rec_clauses(
            moving_center_v(s, r.time),
            s.radius@,
            *s.material,
            r,
            rec,
        ),
        Hittable::XYRect(s) => rect_rec_clauses(
            s.x0@, s.x1@, s.y0@, s.y1@,
            r.origin.x, r.direction.x, r.origin.y, r.direction.y,
            unit_z_v(), *s.material, r, rec,
        ),
        Hittable::XZRect(s) => rect_rec_clauses(
            s.x0@, s.x1@, s.z0@, s.z1@,
            r.origin.x, r.direction.x, r.origin.z, r.direction.z,
            unit_y_v(), *s.material, r, rec,
        ),
        Hittable::YZRect(s) => rect_rec_clauses(
            s.y0@, s.y1@, s.z0@, s.z1@,
            r.origin.y, r.direction.y, r.origin.z, r.direction.z,
            unit_x_v(), *s.material, r, rec,
        ),
        Hittable::Triangle(tr) => triangle_rec_clauses(tr, r, rec),
        Hittable::RectBox(b) => seq_rec_from(b.sides.objects@, 0, r, rec),
        Hittable::ConstantMedium(m) => {
            &&& rec.u@ == 0
            &&& rec.v@ == 0
            &&& *rec.material == *m.material
            &&& rec.point@ == ray_at_v(r, rec.t@)
            &&& rec.normal@ == face_normal_v(unit_x_v(), r)
            &&& rec.front_face == front_face_v(unit_x_v(), r)
        },
        Hittable::Translate(tl) => deterministic_v(*tl.object) ==> crate::nearest::is_param(
            *tl.object,
            translate_ray_v(r, tl.offset@),
            rec.t@,
        ),
        Hittable::RotateY(rt) => deterministic_v(*rt.object) ==> crate::nearest::is_param(
            *rt.object,
            rotate_ray_v(r, rt.sin_theta@, rt.cos_theta@),
            rec.t@,
        ),
        Hittable::List(l) => seq_rec_from(l.objects@, 0, r, rec),
        Hittable::Bvh(n) => rec_from(*n.left, r, rec) || rec_from(*n.right, r, rec),
    }
}

/// Some member at or after `i` accounts for the record.
pub open spec fn seq_rec_from<'a>(s: Seq<Hittable>, i: int, r: RayV, rec: HitRecord<'a>) -> bool
    decreases s, s.len() - i,
{
    if i < 0 || i >= s.len() {
        false
    } else {
        rec_from(s[i], r, rec) || seq_rec_from(s, i + 1, r, rec)
    }
}

/// A record accounted for by member `i` is accounted for by the list
/// from any earlier start.
proof fn lemma_seq_rec_from<'a>(s: Seq<Hittable>, j: int, i: int, r: RayV, rec: HitRecord<'a>)
    requires
        0 <= j <= i < s.len(),
        rec_from(s[i], r, rec),
    ensures
        seq_rec_from(s, j, r, rec),
    decreases i - j,
{
    if j < i {
        lemma_seq_rec_from(s, j + 1, i, r, rec);
    }
}

/// A sampled free path below the scaled crossing distance keeps the hit
/// parameter at or before the exit parameter.
proof fn lemma_medium_t_bound(t1: int, t2: int, len: int, hd: int)
    requires
        -(FX_SAT as int) <= t1 <= FX_SAT as int,
        -(FX_SAT as int) <= t2 <= FX_SAT as int,
        t1 < t2,
        len >= 0,
        hd < fx_mul_v(clip(t2 - t1), len),
    ensures
        clip(t1 + fx_div_v(hd, len)) <= t2,
{
    let u = FX_UNIT as int;
    let delta = clip(t2 - t1);
    if len == 0 {
    } else {
        let step0 = crate::fixed::fdiv(hd * u, len);
        if hd >= 0 {
            let q = crate::fixed::fdiv(delta * len, u);
            assert(delta * len >= 0) by (nonlinear_arith)
                requires
                    delta >= 0,
                    len >= 0,
            ;
            vstd::arithmetic::div_mod::lemma_fundamental_div_mod(delta * len, u);
            vstd::arithmetic::div_mod::lemma_div_pos_is_pos(delta * len, u);
            assert(q * u <= delta * len) by (nonlinear_arith)
                requires
                    delta * len == u * q + (delta * len) % u,
                    (delta * len) % u >= 0,
            ;
            assert(hd <= q - 1);
            assert(hd * u <= (q - 1) * u) by (nonlinear_arith)
                requires
                    hd <= q - 1,
                    u > 0,
            ;
            assert((q - 1) * u == q * u - u) by (nonlinear_arith);
            vstd::arithmetic::div_mod::lemma_div_is_ordered(hd * u, delta * len, len);
            assert(delta * len == len * delta) by (nonlinear_arith);
            vstd::arithmetic::div_mod::lemma_div_multiples_vanish(delta, len);
            assert(step0 <= delta);
        } else {
            assert(hd * u < 0) by (nonlinear_arith)
                requires
                    hd < 0,
                    u > 0,
            ;
            vstd::arithmetic::div_mod::lemma_div_is_ordered(hd * u, 0, len);
            vstd::arithmetic::div_mod::lemma_div_of0(len);
            assert(step0 <= 0);
        }
    }
}


/// The participating medium's intersection: the two boundary crossings
/// clip the ray's passage through it, and an exponentially drawn free
/// path decides whether the ray scatters inside.
fn constant_medium_hit<'a>(
    m: &'a ConstantMedium,
    ray: Ray,
    t_min: Fx,
    t_max: Fx,
) -> (r: Option<HitRecord<'a>>)
    requires
        hittable_wf(*m.boundary),
        material_wf(*m.material),
    ensures
        r matches Some(rec) ==> material_wf(*rec.material),
        r matches Some(rec) ==> rec.t@ <= t_max@,
        r matches Some(rec) ==> {
            &&& rec.u@ == 0
            &&& rec.v@ == 0
            &&& *rec.material == *m.material
            &&& rec.point@ == ray_at_v(ray@, rec.t@)
            &&& rec.normal@ == face_normal_v(unit_x_v(), ray@)
            &&& rec.front_face == front_face_v(unit_x_v(), ray@)
            &&& rec.t@ <= t_max@
            &&& m.neg_inv_density@ <= 0 ==> rec.t@ >= t_min@ && rec.t@ >= 0
        },
        deterministic_v(*m.boundary) ==> {
            &&& (first_hit_t_v(*m.boundary, ray@, -(FX_SAT as int), FX_SAT as int) is None)
                ==> r is None
            &&& r matches Some(rec) ==> first_hit_t_v(
                *m.boundary, ray@, -(FX_SAT as int), FX_SAT as int,
            ) matches Some(te) && first_hit_t_v(
                *m.boundary, ray@, clip(te + RECT_EPS_RAW as int), FX_SAT as int,
            ) matches Some(tx) && rec.t@ <= tx && (m.neg_inv_density@ <= 0 ==> rec.t@ >= te)
                && (exists|udraw: int|
                0 <= udraw < FX_UNIT as int && rec.t@ == clip(
                    max2(max2(te, t_min@), 0) + fx_div_v(
                        fx_mul_v(-m.neg_inv_density@, fx_neg_ln_v(udraw)),
                        length_v(ray@.direction),
                    ),
                ))
        },
    decreases *m.boundary, 1int,
{
                let big = Fx::from_raw(i64::MAX);
                let neg_big = big.neg();
                let first = m.boundary.hit(ray, neg_big, big);
                match first {
                    None => None,
                    Some(rec1) => {
                        let eps = Fx::from_raw(RECT_EPS_RAW);
                        let second = m.boundary.hit(ray, rec1.t.add(eps), big);
                        match second {
                            None => None,
                            Some(rec2) => {
                                let t1 = rec1.t.max(t_min).max(Fx::zero());
                                let t2 = rec2.t.min(t_max);
                                if !t1.lt(t2) {
                                    return None;
                                }
                                let ray_length = ray.direction.length();
                                let dist = t2.sub(t1).mul(ray_length);
                                let udraw = rand_unit_fx();
                                let free_path = fx_neg_ln(udraw);
                                let hd = m.neg_inv_density.neg().mul(free_path);
                                if !hd.lt(dist) {
                                    return None;
                                }
                                let step = hd.div(ray_length);
                                proof {
                                    use_type_invariant(t1);
                                    t1.lemma_bounded();
                                    use_type_invariant(t2);
                                    t2.lemma_bounded();
                                    lemma_medium_t_bound(t1@, t2@, ray_length@, hd@);
                                    if m.neg_inv_density@ <= 0 {
                                        assert((-m.neg_inv_density@) * free_path@ >= 0)
                                            by (nonlinear_arith)
                                            requires
                                                -m.neg_inv_density@ >= 0,
                                                free_path@ >= 0,
                                        ;
                                        vstd::arithmetic::div_mod::lemma_div_pos_is_pos(
                                            (-m.neg_inv_density@) * free_path@,
                                            FX_UNIT as int,
                                        );
                                        if ray_length@ != 0 {
                                            assert(hd@ * (FX_UNIT as int) >= 0)
                                                by (nonlinear_arith)
                                                requires
                                                    hd@ >= 0,
                                            ;
                                            vstd::arithmetic::div_mod::lemma_div_pos_is_pos(
                                                hd@ * (FX_UNIT as int),
                                                ray_length@,
                                            );
                                        }
                                        assert(step@ >= 0);
                                    }
                                }
                                let t = t1.add(step);
                                Some(HitRecord::new(
                                    ray.at(t),
                                    t,
                                    Fx::zero(),
                                    Fx::zero(),
                                    Vec3::new(Fx::one(), Fx::zero(), Fx::zero()),
                                    &m.material,
                                    ray,
                                ))
                            },
                        }
                    },
                }
}


/// A translated object's intersection: the ray is shifted into the
/// object's frame and the returned point shifted back.
fn translate_hit<'a>(tl: &'a Translate, ray: Ray, t_min: Fx, t_max: Fx) -> (r: Option<
    HitRecord<'a>,
>)
    requires
        hittable_wf(*tl.object),
    ensures
        r matches Some(rec) ==> material_wf(*rec.material),
        r matches Some(rec) ==> rec.t@ <= t_max@,
        r matches Some(rec) ==> rec_from(Hittable::Translate(*tl), ray@, rec),
        r matches Some(rec) ==> exists|r2: HitRecord<'a>|
            #[trigger] rec_from(*tl.object, translate_ray_v(ray@, tl.offset@), r2)
                && rec.t == r2.t && rec.u == r2.u && rec.v == r2.v
                && rec.material == r2.material
                && rec.point@ == add_v(r2.point@, tl.offset@)
                && rec.normal@ == face_normal_v(r2.normal@, translate_ray_v(ray@, tl.offset@))
                && rec.front_face == front_face_v(r2.normal@, translate_ray_v(ray@, tl.offset@)),
        deterministic_v(*tl.object) ==> t_matches(
            r,
            first_hit_t_v(*tl.object, translate_ray_v(ray@, tl.offset@), t_min@, t_max@),
        ),
    decreases *tl.object, 1int,
{
                let moved = Ray::new(ray.origin.sub(tl.offset), ray.direction, ray.time);
                match tl.object.hit(moved, t_min, t_max) {
                    None => None,
                    Some(rec) => {
                        let out = HitRecord::new(
                            rec.point.add(tl.offset),
                            rec.t,
                            rec.u,
                            rec.v,
                            rec.normal,
                            rec.material,
                            moved,
                        );
                        proof {
                            assert(moved@ == translate_ray_v(ray@, tl.offset@));
                            assert(rec_from(*tl.object, translate_ray_v(ray@, tl.offset@), rec));
                            if deterministic_v(*tl.object) {
                                crate::nearest::lemma_first_some_is_param(
                                    *tl.object, moved@, t_min@, t_max@,
                                );
                            }
                            assert(rec_from(Hittable::Translate(*tl), ray@, out));
                        }
                        Some(out)
                    },
                }
}

/// A y-rotated object's intersection: the ray is rotated into the
/// object's frame and the returned point and normal rotated back.
fn rotate_y_hit<'a>(rt: &'a RotateY, ray: Ray, t_min: Fx, t_max: Fx) -> (r: Option<
    HitRecord<'a>,
>)
    requires
        hittable_wf(*rt.object),
    ensures
        r matches Some(rec) ==> material_wf(*rec.material),
        r matches Some(rec) ==> rec.t@ <= t_max@,
        r matches Some(rec) ==> rec_from(Hittable::RotateY(*rt), ray@, rec),
        r matches Some(rec) ==> exists|r2: HitRecord<'a>|
            #[trigger] rec_from(
                *rt.object,
                rotate_ray_v(ray@, rt.sin_theta@, rt.cos_theta@),
                r2,
            )
                && rec.t == r2.t && rec.u == r2.u && rec.v == r2.v
                && rec.material == r2.material
                && rec.point@ == rotate_out_v(r2.point@, rt.sin_theta@, rt.cos_theta@)
                && rec.normal@ == face_normal_v(
                    rotate_out_v(r2.normal@, rt.sin_theta@, rt.cos_theta@),
                    rotate_ray_v(ray@, rt.sin_theta@, rt.cos_theta@),
                )
                && rec.front_face == front_face_v(
                    rotate_out_v(r2.normal@, rt.sin_theta@, rt.cos_theta@),
                    rotate_ray_v(ray@, rt.sin_theta@, rt.cos_theta@),
                ),
        deterministic_v(*rt.object) ==> t_matches(
            r,
            first_hit_t_v(
                *rt.object,
                rotate_ray_v(ray@, rt.sin_theta@, rt.cos_theta@),
                t_min@,
                t_max@,
            ),
        ),
    decreases *rt.object, 1int,
{
                let origin = Vec3::new(
                    rt.cos_theta.mul(ray.origin.x).sub(rt.sin_theta.mul(ray.origin.z)),
                    ray.origin.y,
                    rt.sin_theta.mul(ray.origin.x).add(rt.cos_theta.mul(ray.origin.z)),
                );
                let direction = Vec3::new(
                    rt.cos_theta.mul(ray.direction.x).sub(rt.sin_theta.mul(ray.direction.z)),
                    ray.direction.y,
                    rt.sin_theta.mul(ray.direction.x).add(rt.cos_theta.mul(ray.direction.z)),
                );
                let rotated = Ray::new(origin, direction, ray.time);
                match rt.object.hit(rotated, t_min, t_max) {
                    None => None,
                    Some(rec) => {
                        let p = Vec3::new(
                            rt.cos_theta.mul(rec.point.x).add(rt.sin_theta.mul(rec.point.z)),
                            rec.point.y,
                            rt.sin_theta.mul(rec.point.x).neg().add(rt.cos_theta.mul(rec.point.z)),
                        );
                        let normal = Vec3::new(
                            rt.cos_theta.mul(rec.normal.x).add(rt.sin_theta.mul(rec.normal.z)),
                            rec.normal.y,
                            rt.sin_theta.mul(rec.normal.x).neg().add(rt.cos_theta.mul(rec.normal.z)),
                        );
                        let out = HitRecord::new(
                            p, rec.t, rec.u, rec.v, normal, rec.material, rotated,
                        );
                        proof {
                            assert(rotated@ == rotate_ray_v(ray@, rt.sin_theta@, rt.cos_theta@));
                            assert(rec_from(
                                *rt.object,
                                rotate_ray_v(ray@, rt.sin_theta@, rt.cos_theta@),
                                rec,
                            ));
                            if deterministic_v(*rt.object) {
                                crate::nearest::lemma_first_some_is_param(
                                    *rt.object, rotated@, t_min@, t_max@,
                                );
                            }
                            assert(rec_from(Hittable::RotateY(*rt), ray@, out));
                        }
                        Some(out)
                    },
                }
}

impl Sphere {
    pub fn new(center: Vec3, radius: Fx, material: Arc<Material>) -> (r: Sphere)
        ensures
            r.center == center,
            r.radius == radius,
            r.material == material,
    {
        Sphere { center, radius, material }
    }
}

impl MovingSphere {
    pub fn new(
        center0: Vec3,
        center1: Vec3,
        time0: Fx,
        time1: Fx,
        radius: Fx,
        material: Arc<Material>,
    ) -> (r: MovingSphere)
        ensures
            r.center0 == center0,
            r.center1 == center1,
            r.time0 == time0,
            r.time1 == time1,
            r.radius == radius,
            r.material == material,
    {
        MovingSphere { center0, center1, time0, time1, radius, material }
    }

    /// The interpolated center at a time.
    pub fn center(&self, time: Fx) -> (r: Vec3)
        ensures
            r@ == moving_center_v(*self, time@),
    {
        self.center0.add(
            self.center1.sub(self.center0).scale(
                time.sub(self.time0).div(self.time1.sub(self.time0)),
            ),
        )
    }
}

impl XYRect {
    pub fn new(x0: Fx, x1: Fx, y0: Fx, y1: Fx, k: Fx, material: Arc<Material>) -> (r: XYRect)
        ensures
            r.x0 == x0,
            r.x1 == x1,
            r.y0 == y0,
            r.y1 == y1,
            r.k == k,
            r.material == material,
    {
        XYRect { x0, x1, y0, y1, k, material }
    }
}

impl XZRect {
    pub fn new(x0: Fx, x1: Fx, z0: Fx, z1: Fx, k: Fx, material: Arc<Material>) -> (r: XZRect)
        ensures
            r.x0 == x0,
            r.x1 == x1,
            r.z0 == z0,
            r.z1 == z1,
            r.k == k,
            r.material == material,
    {
        XZRect { x0, x1, z0, z1, k, material }
    }
}

impl YZRect {
    pub fn new(y0: Fx, y1: Fx, z0: Fx, z1: Fx, k: Fx, material: Arc<Material>) -> (r: YZRect)
        ensures
            r.y0 == y0,
            r.y1 == y1,
            r.z0 == z0,
            r.z1 == z1,
            r.k == k,
            r.material == material,
    {
        YZRect { y0, y1, z0, z1, k, material }
    }
}

impl Triangle {
    /// Precompute the plane normal, the two barycentric projectors and
    /// the corner bounding box.
    pub fn new(a: Vec3, b: Vec3, c: Vec3, material: Arc<Material>) -> (r: Triangle)
        ensures
            r.a == a,
            r.material == material,
            r.n@ == crate::vec3::unit_v(crate::vec3::cross_v(sub_v(b@, a@), sub_v(c@, a@))),
            r.pc@ == div_scale_v(
                crate::vec3::cross_v(
                    sub_v(c@, a@),
                    crate::vec3::unit_v(crate::vec3::cross_v(sub_v(b@, a@), sub_v(c@, a@))),
                ),
                length_v(crate::vec3::cross_v(sub_v(b@, a@), sub_v(c@, a@))),
            ),
            r.pb@ == div_scale_v(
                crate::vec3::cross_v(
                    crate::vec3::unit_v(crate::vec3::cross_v(sub_v(b@, a@), sub_v(c@, a@))),
                    sub_v(b@, a@),
                ),
                length_v(crate::vec3::cross_v(sub_v(b@, a@), sub_v(c@, a@))),
            ),
            r.bbox@.min.x == crate::aabb::min2(crate::aabb::min2(a@.x, b@.x), c@.x),
            r.bbox@.min.y == crate::aabb::min2(crate::aabb::min2(a@.y, b@.y), c@.y),
            r.bbox@.min.z == crate::aabb::min2(crate::aabb::min2(a@.z, b@.z), c@.z),
            r.bbox@.max.x == crate::aabb::max2(crate::aabb::max2(a@.x, b@.x), c@.x),
            r.bbox@.max.y == crate::aabb::max2(crate::aabb::max2(a@.y, b@.y), c@.y),
            r.bbox@.max.z == crate::aabb::max2(crate::aabb::max2(a@.z, b@.z), c@.z),
    {
        let e1 = b.sub(a);
        let e2 = c.sub(a);
        let ne = e1.cross(e2);
        let nel = ne.length();
        let n = ne.unit_vector();
        let bbox = Aabb::new(
            Vec3::new(a.x.min(b.x).min(c.x), a.y.min(b.y).min(c.y), a.z.min(b.z).min(c.z)),
            Vec3::new(a.x.max(b.x).max(c.x), a.y.max(b.y).max(c.y), a.z.max(b.z).max(c.z)),
        );
        Triangle {
            a,
            n,
            pc: e2.cross(n).div_scale(nel),
            pb: n.cross(e1).div_scale(nel),
            bbox,
            material,
        }
    }
}

impl HittableList {
    pub fn new() -> (r: HittableList)
        ensures
            r.objects@.len() == 0,
    {
        HittableList { objects: Vec::new() }
    }

    pub fn add(&mut self, object: Hittable)
        ensures
            final(self).objects@ == old(self).objects@.push(object),
    {
        self.objects.push(object);
    }

    pub fn clear(&mut self)
        ensures
            final(self).objects@.len() == 0,
    {
        self.objects.clear();
    }
}

impl Hittable {
    /// The nearest intersection inside `[t_min, t_max]`.  For a
    /// deterministic scene the returned parameter is exactly
    /// `first_hit_t_v`; every returned record carries a well-formed
    /// material and satisfies its variant's record clauses.
    #[verifier::rlimit(100)]
    pub fn hit<'a>(&'a self, ray: Ray, t_min: Fx, t_max: Fx) -> (r: Option<HitRecord<'a>>)
        requires
            hittable_wf(*self),
        ensures
            deterministic_v(*self) ==> t_matches(r, first_hit_t_v(*self, ray@, t_min@, t_max@)),
            r matches Some(rec) ==> material_wf(*rec.material),
            r matches Some(rec) ==> rec.t@ <= t_max@,
            r matches Some(rec) ==> rec_from(*self, ray@, rec),
            self matches Hittable::ConstantMedium(m) ==> (r matches Some(rec) ==> {
                &&& rec.t@ <= t_max@
                &&& m.neg_inv_density@ <= 0 ==> rec.t@ >= t_min@ && rec.t@ >= 0
            }),
            self matches Hittable::Translate(tl) ==> (r matches Some(rec) ==> exists|
                r2: HitRecord<'a>,
            |
                #[trigger] rec_from(*tl.object, translate_ray_v(ray@, tl.offset@), r2)
                    && rec.t == r2.t && rec.u == r2.u && rec.v == r2.v
                    && rec.material == r2.material
                    && rec.point@ == add_v(r2.point@, tl.offset@)
                    && rec.normal@ == face_normal_v(r2.normal@, translate_ray_v(ray@, tl.offset@))
                    && rec.front_face == front_face_v(
                    r2.normal@,
                    translate_ray_v(ray@, tl.offset@),
                )),
            self matches Hittable::RotateY(rt) ==> (r matches Some(rec) ==> exists|
                r2: HitRecord<'a>,
            |
                #[trigger] rec_from(
                    *rt.object,
                    rotate_ray_v(ray@, rt.sin_theta@, rt.cos_theta@),
                    r2,
                )
                    && rec.t == r2.t && rec.u == r2.u && rec.v == r2.v
                    && rec.material == r2.material
                    && rec.point@ == rotate_out_v(r2.point@, rt.sin_theta@, rt.cos_theta@)
                    && rec.normal@ == face_normal_v(
                    rotate_out_v(r2.normal@, rt.sin_theta@, rt.cos_theta@),
                    rotate_ray_v(ray@, rt.sin_theta@, rt.cos_theta@),
                )
                    && rec.front_face == front_face_v(
                    rotate_out_v(r2.normal@, rt.sin_theta@, rt.cos_theta@),
                    rotate_ray_v(ray@, rt.sin_theta@, rt.cos_theta@),
                )),
            self matches Hittable::Bvh(n) ==> (r matches Some(rec) ==> ((deterministic_v(
                *n.left,
            ) && deterministic_v(*n.right)) ==> {
                &&& (first_hit_t_v(*n.left, ray@, t_min@, t_max@) matches Some(tl)
                    && (first_hit_t_v(*n.right, ray@, t_min@, t_max@) matches Some(tr) ==> tl
                    <= tr)) ==> rec_from(*n.left, ray@, rec) && rec.t@ == first_hit_t_v(
                    *n.left, ray@, t_min@, t_max@,
                )->Some_0
                &&& (first_hit_t_v(*n.right, ray@, t_min@, t_max@) matches Some(tr)
                    && (first_hit_t_v(*n.left, ray@, t_min@, t_max@) matches Some(tl) ==> !(tl
                    <= tr))) ==> rec_from(*n.right, ray@, rec) && rec.t@ == first_hit_t_v(
                    *n.right, ray@, t_min@, t_max@,
                )->Some_0
            })),
            self matches Hittable::ConstantMedium(m) ==> (deterministic_v(*m.boundary) ==> {
                &&& (first_hit_t_v(*m.boundary, ray@, -(FX_SAT as int), FX_SAT as int) is None)
                    ==> r is None
                &&& r matches Some(rec) ==> first_hit_t_v(
                    *m.boundary, ray@, -(FX_SAT as int), FX_SAT as int,
                ) matches Some(te) && first_hit_t_v(
                    *m.boundary, ray@, clip(te + RECT_EPS_RAW as int), FX_SAT as int,
                ) matches Some(tx) && rec.t@ <= tx && (m.neg_inv_density@ <= 0 ==> rec.t@ >= te)
                    && (exists|udraw: int|
                    0 <= udraw < FX_UNIT as int && rec.t@ == clip(
                        max2(max2(te, t_min@), 0) + fx_div_v(
                            fx_mul_v(-m.neg_inv_density@, fx_neg_ln_v(udraw)),
                            length_v(ray@.direction),
                        ),
                    ))
            }),
        decreases *self, 0int,
    {
        match self {
            Hittable::Sphere(s) => {
                let res = sphere_hit_core(s.center, s.radius, &s.material, ray, t_min, t_max);
                proof {
                    assert(res matches Some(rec) ==> rec_from(*self, ray@, rec));
                }
                res
            },
            Hittable::MovingSphere(s) => {
                let c = s.center(ray.time);
                let res = sphere_hit_core(c, s.radius, &s.material, ray, t_min, t_max);
                proof {
                    assert(res matches Some(rec) ==> rec_from(*self, ray@, rec));
                }
                res
            },
            Hittable::XYRect(s) => {
                if ray.direction.z.is_zero() {
                    return None;
                }
                let t = s.k.sub(ray.origin.z).div(ray.direction.z);
                if t.lt(t_min) || t_max.lt(t) {
                    return None;
                }
                let x = ray.origin.x.add(t.mul(ray.direction.x));
                let y = ray.origin.y.add(t.mul(ray.direction.y));
                if x.lt(s.x0) || s.x1.lt(x) || y.lt(s.y0) || s.y1.lt(y) {
                    return None;
                }
                let out = HitRecord::new(
                    ray.at(t),
                    t,
                    x.sub(s.x0).div(s.x1.sub(s.x0)),
                    y.sub(s.y0).div(s.y1.sub(s.y0)),
                    Vec3::new(Fx::zero(), Fx::zero(), Fx::one()),
                    &s.material,
                    ray,
                );
                proof {
                    assert(rec_from(*self, ray@, out));
                }
                Some(out)
            },
            Hittable::XZRect(s) => {
                if ray.direction.y.is_zero() {
                    return None;
                }
                let t = s.k.sub(ray.origin.y).div(ray.direction.y);
                if t.lt(t_min) || t_max.lt(t) {
                    return None;
                }
                let x = ray.origin.x.add(t.mul(ray.direction.x));
                let z = ray.origin.z.add(t.mul(ray.direction.z));
                if x.lt(s.x0) || s.x1.lt(x) || z.lt(s.z0) || s.z1.lt(z) {
                    return None;
                }
                let out = HitRecord::new(
                    ray.at(t),
                    t,
                    x.sub(s.x0).div(s.x1.sub(s.x0)),
                    z.sub(s.z0).div(s.z1.sub(s.z0)),
                    Vec3::new(Fx::zero(), Fx::one(), Fx::zero()),
                    &s.material,
                    ray,
                );
                proof {
                    assert(rec_from(*self, ray@, out));
                }
                Some(out)
            },
            Hittable::YZRect(s) => {
                if ray.direction.x.is_zero() {
                    return None;
                }
                let t = s.k.sub(ray.origin.x).div(ray.direction.x);
                if t.lt(t_min) || t_max.lt(t) {
                    return None;
                }
                let y = ray.origin.y.add(t.mul(ray.direction.y));
                let z = ray.origin.z.add(t.mul(ray.direction.z));
                if y.lt(s.y0) || s.y1.lt(y) || z.lt(s.z0) || s.z1.lt(z) {
                    return None;
                }
                let out = HitRecord::new(
                    ray.at(t),
                    t,
                    y.sub(s.y0).div(s.y1.sub(s.y0)),
                    z.sub(s.z0).div(s.z1.sub(s.z0)),
                    Vec3::new(Fx::one(), Fx::zero(), Fx::zero()),
                    &s.material,
                    ray,
                );
                proof {
                    assert(rec_from(*self, ray@, out));
                }
                Some(out)
            },
            Hittable::Triangle(tr) => {
                let oa = ray.origin.sub(tr.a);
                let denom = ray.direction.dot(tr.n);
                if denom.is_zero() {
                    return None;
                }
                let t = oa.dot(tr.n).neg().div(denom);
                if t.lt(t_min) || t_max.lt(t) {
                    return None;
                }
                let p = oa.add(ray.direction.scale(t));
                let u = tr.pc.dot(p);
                let v = tr.pb.dot(p);
                let zero = Fx::zero();
                let one = Fx::one();
                let uv = u.add(v);
                if zero.le(uv) && uv.le(one) && zero.le(u) && u.le(one) && zero.le(v) && v.le(one) {
                    let out = HitRecord::new(ray.at(t), t, u, v, tr.n, &tr.material, ray);
                    proof {
                        assert(rec_from(*self, ray@, out));
                    }
                    Some(out)
                } else {
                    None
                }
            },
            Hittable::RectBox(b) => {
                let res = list_hit_scan(&b.sides.objects, ray, t_min, t_max);
                proof {
                    assert(res matches Some(rec) ==> rec_from(*self, ray@, rec));
                }
                res
            },
            Hittable::ConstantMedium(m) => {
                let res = constant_medium_hit(m, ray, t_min, t_max);
                proof {
                    assert(res matches Some(rec) ==> rec_from(*self, ray@, rec));
                }
                res
            },
            Hittable::Translate(tl) => {
                let res = translate_hit(tl, ray, t_min, t_max);
                proof {
                    assert(res matches Some(rec) ==> rec_from(*self, ray@, rec));
                }
                res
            },
            Hittable::RotateY(rt) => {
                let res = rotate_y_hit(rt, ray, t_min, t_max);
                proof {
                    assert(res matches Some(rec) ==> rec_from(*self, ray@, rec));
                }
                res
            },
            Hittable::List(l) => {
                let res = list_hit_scan(&l.objects, ray, t_min, t_max);
                proof {
                    assert(res matches Some(rec) ==> rec_from(*self, ray@, rec));
                }
                res
            },
            Hittable::Bvh(n) => {
                if !n.bounding_box.hit(ray, t_min, t_max) {
                    return None;
                }
                let hit_left = n.left.hit(ray, t_min, t_max);
                let hit_right = n.right.hit(ray, t_min, t_max);
                match (hit_left, hit_right) {
                    (None, None) => None,
                    (Some(rec), None) => {
                        proof {
                            assert(rec_from(*self, ray@, rec));
                        }
                        Some(rec)
                    },
                    (None, Some(rec)) => {
                        proof {
                            assert(rec_from(*self, ray@, rec));
                        }
                        Some(rec)
                    },
                    (Some(rl), Some(rr)) => if rl.t.le(rr.t) {
                        proof {
                            assert(rec_from(*self, ray@, rl));
                        }
                        Some(rl)
                    } else {
                        proof {
                            assert(rec_from(*self, ray@, rr));
                        }
                        Some(rr)
                    },
                }
            },
        }
    }

    /// The box enclosing the primitive across the shutter interval.
    pub fn bounding_box(&self, time0: Fx, time1: Fx) -> (r: Option<Aabb>)
        ensures
            (r is Some) == (bounding_box_v(*self, time0@, time1@) is Some),
            r matches Some(b) ==> bounding_box_v(*self, time0@, time1@) matches Some(bv) && b@
                == bv,
        decreases *self,
    {
        match self {
            Hittable::Sphere(s) => {
                let rv = Vec3::new(s.radius, s.radius, s.radius);
                Some(Aabb::new(s.center.sub(rv), s.center.add(rv)))
            },
            Hittable::MovingSphere(s) => {
                let rv = Vec3::new(s.radius, s.radius, s.radius);
                let c0 = s.center(time0);
                let c1 = s.center(time1);
                Some(Aabb::surrounding_box(
                    &Aabb::new(c0.sub(rv), c0.add(rv)),
                    &Aabb::new(c1.sub(rv), c1.add(rv)),
                ))
            },
            Hittable::XYRect(s) => {
                let eps = Fx::from_raw(RECT_EPS_RAW);
                Some(Aabb::new(
                    Vec3::new(s.x0, s.y0, s.k.sub(eps)),
                    Vec3::new(s.x1, s.y1, s.k.add(eps)),
                ))
            },
            Hittable::XZRect(s) => {
                let eps = Fx::from_raw(RECT_EPS_RAW);
                Some(Aabb::new(
                    Vec3::new(s.x0, s.k.sub(eps), s.z0),
                    Vec3::new(s.x1, s.k.add(eps), s.z1),
                ))
            },
            Hittable::YZRect(s) => {
                let eps = Fx::from_raw(RECT_EPS_RAW);
                Some(Aabb::new(
                    Vec3::new(s.k.sub(eps), s.y0, s.z0),
                    Vec3::new(s.k.add(eps), s.y1, s.z1),
                ))
            },
            Hittable::Triangle(tr) => Some(tr.bbox),
            Hittable::RectBox(b) => Some(Aabb::new(b.min, b.max)),
            Hittable::ConstantMedium(m) => m.boundary.bounding_box(time0, time1),
            Hittable::Translate(t) => match t.object.bounding_box(time0, time1) {
                Some(b) => Some(Aabb::new(b.min.add(t.offset), b.max.add(t.offset))),
                None => None,
            },
            Hittable::RotateY(t) => t.bbox,
            Hittable::List(l) => list_box_scan(&l.objects, time0, time1),
            Hittable::Bvh(n) => Some(n.bounding_box),
        }
    }
}

/// The shared quadratic solver for spheres.
fn sphere_hit_core<'a>(
    center: Vec3,
    radius: Fx,
    material: &'a Material,
    ray: Ray,
    t_min: Fx,
    t_max: Fx,
) -> (r: Option<HitRecord<'a>>)
    ensures
        t_matches(r, sphere_first_t_v(center@, radius@, ray@, t_min@, t_max@)),
        r matches Some(rec) ==> {
            let t = rec.t@;
            let p = ray_at_v(ray@, t);
            let outward = sphere_outward_v(center@, radius@, p);
            &&& rec.point@ == p
            &&& rec.material == material
            &&& rec.normal@ == face_normal_v(outward, ray@)
            &&& rec.front_face == front_face_v(outward, ray@)
            &&& rec.u@ == sphere_u_v(outward)
            &&& rec.v@ == sphere_v_v(outward)
        },
{
    let oc = ray.origin.sub(center);
    let a = ray.direction.length_squared();
    let half_b = oc.dot(ray.direction);
    let c = oc.length_squared().sub(radius.mul(radius));
    let discriminant = half_b.mul(half_b).sub(a.mul(c));
    if discriminant.lt(Fx::zero()) {
        return None;
    }
    let sqrtd = discriminant.sqrt();
    let root1 = half_b.neg().sub(sqrtd).div(a);
    let root2 = half_b.neg().add(sqrtd).div(a);
    let root = if !(root1.lt(t_min) || t_max.lt(root1)) {
        root1
    } else if !(root2.lt(t_min) || t_max.lt(root2)) {
        root2
    } else {
        return None;
    };
    let p = ray.at(root);
    let outward = p.sub(center).div_scale(radius);
    let u = sphere_uv_u(outward);
    let v = sphere_uv_v(outward);
    Some(HitRecord::new(p, root, u, v, outward, material, ray))
}

/// The longitude coordinate of a spherical direction.
pub fn sphere_uv_u(n: Vec3) -> (r: Fx)
    ensures
        r@ == sphere_u_v(n@),
{
    let phi = fx_atan2(n.z.neg(), n.x).add(Fx::from_raw(PI_RAW));
    phi.div(Fx::from_raw(TWO_PI_RAW))
}

/// The latitude coordinate of a spherical direction.
pub fn sphere_uv_v(n: Vec3) -> (r: Fx)
    ensures
        r@ == sphere_v_v(n@),
{
    fx_acos(n.y).div(Fx::from_raw(PI_RAW))
}

/// The linear scan: each accepted hit shrinks the search window.
fn list_hit_scan<'a>(objects: &'a Vec<Hittable>, ray: Ray, t_min: Fx, t_max: Fx) -> (r: Option<
    HitRecord<'a>,
>)
    requires
        list_wf(objects@, 0),
    ensures
        list_det(objects@, 0) ==> t_matches(
            r,
            list_first_t_from(objects@, 0, ray@, t_min@, t_max@, None),
        ),
        r matches Some(rec) ==> material_wf(*rec.material),
        r matches Some(rec) ==> rec.t@ <= t_max@,
        r matches Some(rec) ==> seq_rec_from(objects@, 0, ray@, rec),
    decreases objects@, 0int,
{
    let mut closest = t_max;
    let mut result: Option<HitRecord<'a>> = None;
    let mut i: usize = 0;
    let ghost s = objects@;
    while i < objects.len()
        invariant
            i <= s.len(),
            objects@ == s,
            list_wf(s, 0),
            closest@ <= t_max@,
            result matches Some(rec) ==> material_wf(*rec.material),
            result matches Some(rec) ==> rec.t@ <= closest@,
            result matches Some(rec) ==> seq_rec_from(s, 0, ray@, rec),
            list_det(s, 0) ==> {
                &&& t_matches(result, match result {
                    Some(rec) => Some(rec.t@),
                    None => None,
                })
                &&& list_first_t_from(s, i as int, ray@, t_min@, closest@, match result {
                    Some(rec) => Some(rec.t@),
                    None => None,
                }) == list_first_t_from(s, 0, ray@, t_min@, t_max@, None)
            },
        decreases s.len() - i,
    {
        proof {
            lemma_list_prefix_wf(s, 0, i as int);
            if list_det(s, 0) {
                lemma_list_prefix_det(s, 0, i as int);
            }
            assert(decreases_to!(s => s[i as int]));
        }
        let obj = &objects[i];
        match obj.hit(ray, t_min, closest) {
            Some(rec) => {
                proof {
                    lemma_seq_rec_from(s, 0, i as int, ray@, rec);
                }
                closest = rec.t;
                result = Some(rec);
            },
            None => {},
        }
        i = i + 1;
    }
    result
}

/// Well-formedness descends to each member.
proof fn lemma_list_prefix_wf(s: Seq<Hittable>, i: int, j: int)
    requires
        list_wf(s, i),
        i <= j < s.len(),
        0 <= i,
    ensures
        hittable_wf(s[j]),
        list_wf(s, j),
    decreases j - i,
{
    if i < j {
        lemma_list_prefix_wf(s, i + 1, j);
    }
}

/// Determinism descends to each member.
proof fn lemma_list_prefix_det(s: Seq<Hittable>, i: int, j: int)
    requires
        list_det(s, i),
        i <= j < s.len(),
        0 <= i,
    ensures
        deterministic_v(s[j]),
        list_det(s, j),
    decreases j - i,
{
    if i < j {
        lemma_list_prefix_det(s, i + 1, j);
    }
}

/// The fold of the members' boxes.
fn list_box_scan(objects: &Vec<Hittable>, time0: Fx, time1: Fx) -> (r: Option<Aabb>)
    ensures
        (r is Some) == (list_box_from(objects@, 0, time0@, time1@) is Some),
        r matches Some(b) ==> list_box_from(objects@, 0, time0@, time1@) matches Some(bv) && b@
            == bv,
    decreases objects@,
{
    list_box_rec(objects, 0, time0, time1)
}

fn list_box_rec(objects: &Vec<Hittable>, i: usize, time0: Fx, time1: Fx) -> (r: Option<Aabb>)
    requires
        i <= objects@.len(),
    ensures
        (r is Some) == (list_box_from(objects@, i as int, time0@, time1@) is Some),
        r matches Some(b) ==> list_box_from(objects@, i as int, time0@, time1@) matches Some(bv)
            && b@ == bv,
    decreases objects@, objects@.len() - i,
{
    if i >= objects.len() {
        return None;
    }
    proof {
        assert(decreases_to!(objects@ => objects@[i as int]));
    }
    let first = objects[i].bounding_box(time0, time1);
    match first {
        None => None,
        Some(b) => {
            if i == objects.len() - 1 {
                Some(b)
            } else {
                match list_box_rec(objects, i + 1, time0, time1) {
                    None => None,
                    Some(rest) => Some(Aabb::surrounding_box(&b, &rest)),
                }
            }
        },
    }
}

impl RectBox {
    /// A closed box made of six axis-aligned rectangles sharing one
    /// material: an XYRect at each z face, an XZRect at each y face and a
    /// YZRect at each x face, each spanning the full corresponding side.
    pub fn new(p0: Vec3, p1: Vec3, material: Arc<Material>) -> (r: RectBox)
        requires
            material_wf(*material),
        ensures
            r.min == p0,
            r.max == p1,
            list_wf(r.sides.objects@, 0),
            r.sides.objects@.len() == 6,
            r.sides.objects@[0] matches Hittable::XYRect(f) && f.x0 == p0.x && f.x1 == p1.x
                && f.y0 == p0.y && f.y1 == p1.y && f.k == p1.z && *f.material == *material,
            r.sides.objects@[1] matches Hittable::XYRect(f) && f.x0 == p0.x && f.x1 == p1.x
                && f.y0 == p0.y && f.y1 == p1.y && f.k == p0.z && *f.material == *material,
            r.sides.objects@[2] matches Hittable::XZRect(f) && f.x0 == p0.x && f.x1 == p1.x
                && f.z0 == p0.z && f.z1 == p1.z && f.k == p1.y && *f.material == *material,
            r.sides.objects@[3] matches Hittable::XZRect(f) && f.x0 == p0.x && f.x1 == p1.x
                && f.z0 == p0.z && f.z1 == p1.z && f.k == p0.y && *f.material == *material,
            r.sides.objects@[4] matches Hittable::YZRect(f) && f.y0 == p0.y && f.y1 == p1.y
                && f.z0 == p0.z && f.z1 == p1.z && f.k == p1.x && *f.material == *material,
            r.sides.objects@[5] matches Hittable::YZRect(f) && f.y0 == p0.y && f.y1 == p1.y
                && f.z0 == p0.z && f.z1 == p1.z && f.k == p0.x && *f.material == *material,
    {
        let mut sides = HittableList::new();
        sides.add(Hittable::XYRect(XYRect::new(p0.x, p1.x, p0.y, p1.y, p1.z, share_material(&material))));
        sides.add(Hittable::XYRect(XYRect::new(p0.x, p1.x, p0.y, p1.y, p0.z, share_material(&material))));
        sides.add(Hittable::XZRect(XZRect::new(p0.x, p1.x, p0.z, p1.z, p1.y, share_material(&material))));
        sides.add(Hittable::XZRect(XZRect::new(p0.x, p1.x, p0.z, p1.z, p0.y, share_material(&material))));
        sides.add(Hittable::YZRect(YZRect::new(p0.y, p1.y, p0.z, p1.z, p1.x, share_material(&material))));
        sides.add(Hittable::YZRect(YZRect::new(p0.y, p1.y, p0.z, p1.z, p0.x, share_material(&material))));
        proof {
            lemma_list_wf_all(sides.objects@);
        }
        RectBox { min: p0, max: p1, sides }
    }
}

/// A list whose members are each well-formed is well-formed from every
/// start index.
proof fn lemma_list_wf_all(s: Seq<Hittable>)
    requires
        forall|i: int| 0 <= i < s.len() ==> hittable_wf(#[trigger] s[i]),
    ensures
        list_wf(s, 0),
{
    lemma_list_wf_from(s, 0);
}

proof fn lemma_list_wf_from(s: Seq<Hittable>, i: int)
    requires
        0 <= i,
        forall|j: int| 0 <= j < s.len() ==> hittable_wf(#[trigger] s[j]),
    ensures
        list_wf(s, i),
    decreases s.len() - i + 1,
{
    if i < s.len() {
        lemma_list_wf_from(s, i + 1);
    }
}

impl ConstantMedium {
    /// A homogeneous participating medium inside a boundary: hits are
    /// drawn from an exponential free-path inside it.
    pub fn new(boundary: Box<Hittable>, density: Fx, material: Arc<Material>) -> (r: ConstantMedium)
        ensures
            r.boundary == boundary,
            r.material == material,
            r.neg_inv_density@ == -crate::fixed::fx_div_v(FX_UNIT as int, density@),
    {
        let neg_inv_density = Fx::one().div(density).neg();
        ConstantMedium { boundary, material, neg_inv_density }
    }
}

impl Translate {
    pub fn new(object: Box<Hittable>, offset: Vec3) -> (r: Translate)
        ensures
            r.object == object,
            r.offset == offset,
    {
        Translate { object, offset }
    }
}

/// Degrees converted to raw radian units.
pub open spec fn radians_v(deg: int) -> int {
    fx_div_v(fx_mul_v(deg, PI_RAW as int), 180 * (FX_UNIT as int))
}

/// One corner of a box, rotated out of the object frame.
pub open spec fn rot_corner_v(b: AabbV, i: int, j: int, k: int, s: int, c: int) -> Vec3V {
    let x = if i == 1 { b.max.x } else { b.min.x };
    let y = if j == 1 { b.max.y } else { b.min.y };
    let z = if k == 1 { b.max.z } else { b.min.z };
    rotate_out_v(Vec3V { x, y, z }, s, c)
}

/// The axis-aligned extent of a rotated box: the componentwise least and
/// greatest coordinates of its eight rotated corners.
pub open spec fn rotate_box_v(b: AabbV, s: int, c: int) -> AabbV {
    let c0 = rot_corner_v(b, 0, 0, 0, s, c);
    let c1 = rot_corner_v(b, 0, 0, 1, s, c);
    let c2 = rot_corner_v(b, 0, 1, 0, s, c);
    let c3 = rot_corner_v(b, 0, 1, 1, s, c);
    let c4 = rot_corner_v(b, 1, 0, 0, s, c);
    let c5 = rot_corner_v(b, 1, 0, 1, s, c);
    let c6 = rot_corner_v(b, 1, 1, 0, s, c);
    let c7 = rot_corner_v(b, 1, 1, 1, s, c);
    AabbV {
        min: Vec3V {
            x: m2l(m2l(m2l(m2l(m2l(m2l(m2l(c0.x, c1.x), c2.x), c3.x), c4.x), c5.x), c6.x), c7.x),
            y: m2l(m2l(m2l(m2l(m2l(m2l(m2l(c0.y, c1.y), c2.y), c3.y), c4.y), c5.y), c6.y), c7.y),
            z: m2l(m2l(m2l(m2l(m2l(m2l(m2l(c0.z, c1.z), c2.z), c3.z), c4.z), c5.z), c6.z), c7.z),
        },
        max: Vec3V {
            x: m2g(m2g(m2g(m2g(m2g(m2g(m2g(c0.x, c1.x), c2.x), c3.x), c4.x), c5.x), c6.x), c7.x),
            y: m2g(m2g(m2g(m2g(m2g(m2g(m2g(c0.y, c1.y), c2.y), c3.y), c4.y), c5.y), c6.y), c7.y),
            z: m2g(m2g(m2g(m2g(m2g(m2g(m2g(c0.z, c1.z), c2.z), c3.z), c4.z), c5.z), c6.z), c7.z),
        },
    }
}

pub open spec fn m2l(a: int, b: int) -> int {
    crate::aabb::min2(a, b)
}

pub open spec fn m2g(a: int, b: int) -> int {
    crate::aabb::max2(a, b)
}

fn rot_corner(b: &Aabb, i: usize, j: usize, k: usize, s: Fx, c: Fx) -> (r: Vec3)
    requires
        i <= 1,
        j <= 1,
        k <= 1,
    ensures
        r@ == rot_corner_v(b@, i as int, j as int, k as int, s@, c@),
{
    let x = if i == 1 { b.max.x } else { b.min.x };
    let y = if j == 1 { b.max.y } else { b.min.y };
    let z = if k == 1 { b.max.z } else { b.min.z };
    Vec3::new(
        c.mul(x).add(s.mul(z)),
        y,
        s.mul(x).neg().add(c.mul(z)),
    )
}

fn rotate_box(b: &Aabb, s: Fx, c: Fx) -> (r: Aabb)
    ensures
        r@ == rotate_box_v(b@, s@, c@),
{
    let c0 = rot_corner(b, 0, 0, 0, s, c);
    let c1 = rot_corner(b, 0, 0, 1, s, c);
    let c2 = rot_corner(b, 0, 1, 0, s, c);
    let c3 = rot_corner(b, 0, 1, 1, s, c);
    let c4 = rot_corner(b, 1, 0, 0, s, c);
    let c5 = rot_corner(b, 1, 0, 1, s, c);
    let c6 = rot_corner(b, 1, 1, 0, s, c);
    let c7 = rot_corner(b, 1, 1, 1, s, c);
    Aabb::new(
        Vec3::new(
            c0.x.min(c1.x).min(c2.x).min(c3.x).min(c4.x).min(c5.x).min(c6.x).min(c7.x),
            c0.y.min(c1.y).min(c2.y).min(c3.y).min(c4.y).min(c5.y).min(c6.y).min(c7.y),
            c0.z.min(c1.z).min(c2.z).min(c3.z).min(c4.z).min(c5.z).min(c6.z).min(c7.z),
        ),
        Vec3::new(
            c0.x.max(c1.x).max(c2.x).max(c3.x).max(c4.x).max(c5.x).max(c6.x).max(c7.x),
            c0.y.max(c1.y).max(c2.y).max(c3.y).max(c4.y).max(c5.y).max(c6.y).max(c7.y),
            c0.z.max(c1.z).max(c2.z).max(c3.z).max(c4.z).max(c5.z).max(c6.z).max(c7.z),
        ),
    )
}

impl RotateY {
    /// Rotation about the y axis by an angle in degrees.  The stored box
    /// is the axis-aligned extent of the child's rotated box.
    pub fn new(object: Box<Hittable>, theta: Fx) -> (r: RotateY)
        ensures
            r.object == object,
            r.sin_theta@ == crate::trig::fx_sin_v(radians_v(theta@)),
            r.cos_theta@ == crate::trig::fx_cos_v(radians_v(theta@)),
            (r.bbox is Some) == (bounding_box_v(*object, 0, FX_UNIT as int) is Some),
            r.bbox matches Some(b) ==> bounding_box_v(*object, 0, FX_UNIT as int) matches Some(cb)
                && b@ == rotate_box_v(cb, r.sin_theta@, r.cos_theta@),
    {
        let radians = theta.mul(Fx::from_raw(PI_RAW)).div(Fx::from_int(180));
        let sin_theta = crate::trig::fx_sin(radians);
        let cos_theta = crate::trig::fx_cos(radians);
        let bbox = match object.bounding_box(Fx::zero(), Fx::one()) {
            Some(b) => Some(rotate_box(&b, sin_theta, cos_theta)),
            None => None,
        };
        RotateY { object, sin_theta, cos_theta, bbox }
    }
}

} // verus!
