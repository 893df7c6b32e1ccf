//! The radiance integrator and the per-column sampling loop.

use vstd::prelude::*;
use crate::camera::Camera;
use crate::fixed::{fdiv, fx_mul_v, fx_sqrt_v, Fx, FX_UNIT};
use crate::hittable::{
    deterministic_v, first_hit_t_v, hittable_wf, sphere_u_v, sphere_uv_u, sphere_uv_v, sphere_v_v,
    Hittable,
};
use crate::material::black_v;
use crate::ray::{Ray, RayV};
use crate::rng::rand_unit_fx;
use crate::texture::{texture_value_v, texture_wf, Texture};
use crate::vec3::{unit_v, Color, Vec3, Vec3V};

verus! {

/// The lower search bound of every radiance query, shaving off
/// self-intersections at the hit point.
pub const T_EPS_RAW: i64 = 7;

/// The color of the environment in a ray's direction: the background
/// texture sampled by the spherical mapping of the unit direction.
pub open spec fn background_color_v(bg: Texture, r: RayV) -> Vec3V {
    let ud = unit_v(r.direction);
    texture_value_v(bg, sphere_u_v(ud), sphere_v_v(ud), r.origin)
}

/// The upper search bound: the farthest representable parameter.
pub open spec fn t_far_v() -> int {
    crate::fixed::FX_SAT as int
}

/// Trace a ray: black at the depth cutoff; the background on a miss; and
/// on a hit, the material's emission plus its attenuated scattered
/// radiance.
pub fn ray_color(ray: Ray, background: &Texture, world: &Hittable, depth: i32) -> (r: Color)
    requires
        texture_wf(*background),
        hittable_wf(*world),
    ensures
        depth <= 0 ==> r@ == black_v(),
        (depth > 0 && deterministic_v(*world) && first_hit_t_v(
            *world,
            ray@,
            T_EPS_RAW as int,
            t_far_v(),
        ) is None) ==> r@ == background_color_v(*background, ray@),
    decreases depth,
{
    if depth <= 0 {
        return Vec3::zero();
    }
    match world.hit(ray, Fx::from_raw(T_EPS_RAW), Fx::from_raw(i64::MAX)) {
        Some(rec) => {
            let emitted = rec.material.emitted(rec.u, rec.v, rec.point);
            match rec.material.scatter(&ray, &rec) {
                Some(pair) => {
                    let (attenuation, scattered) = pair;
                    emitted.add(
                        attenuation.mul_comp(ray_color(scattered, background, world, depth - 1)),
                    )
                },
                None => emitted,
            }
        },
        None => {
            let ud = ray.direction.unit_vector();
            let u = sphere_uv_u(ud);
            let v = sphere_uv_v(ud);
            background.value(u, v, ray.origin)
        },
    }
}

/// One output row entry is the gamma fold of an accumulated sample sum.
pub open spec fn row_from_pixel(entry: (u8, u8, u8), acc: Vec3V, samples: int) -> bool {
    let avg = crate::vec3::div_scale_v(acc, crate::fixed::clip(samples * (FX_UNIT as int)));
    &&& entry.0 as int == channel_byte_v(avg.x)
    &&& entry.1 as int == channel_byte_v(avg.y)
    &&& entry.2 as int == channel_byte_v(avg.z)
}

pub open spec fn clamp_0_255(x: int) -> int {
    if x < 0 {
        0
    } else if x > 255 {
        255
    } else {
        x
    }
}

/// One linear channel folded to an 8-bit value: clamped into `[0, 1]`,
/// gamma-corrected by a square root, and scaled to 255.
pub open spec fn channel_byte_v(x: int) -> int {
    let cl = if x < 0 {
        0
    } else if x > FX_UNIT as int {
        FX_UNIT as int
    } else {
        x
    };
    clamp_0_255(fdiv(fx_mul_v(fx_sqrt_v(cl), 255 * (FX_UNIT as int)), FX_UNIT as int))
}

fn channel_byte(x: Fx) -> (r: u8)
    ensures
        r as int == channel_byte_v(x@),
{
    let zero = Fx::zero();
    let one = Fx::one();
    let cl = x.clamp(zero, one);
    let scaled = cl.sqrt().mul(Fx::from_int(255));
    let (q, _f) = scaled.floor_parts();
    if q < 0 {
        0
    } else if q > 255 {
        255
    } else {
        q as u8
    }
}

/// A linear color averaged over its samples and folded to an 8-bit
/// triple.
pub fn sample_to_rgb8(color: Color, samples: u32) -> (r: (u8, u8, u8))
    requires
        samples >= 1,
    ensures
        ({
            let avg = crate::vec3::div_scale_v(color@, crate::fixed::clip(samples * (FX_UNIT as int)));
            &&& r.0 as int == channel_byte_v(avg.x)
            &&& r.1 as int == channel_byte_v(avg.y)
            &&& r.2 as int == channel_byte_v(avg.z)
        }),
{
    let avg = color.div_scale(Fx::from_int(samples as i64));
    (channel_byte(avg.x), channel_byte(avg.y), channel_byte(avg.z))
}

/// Render one image column: for every row, average `samples` jittered
/// radiance samples and fold them to 8-bit triples.  Rows run from the
/// bottom of the image upward.
pub fn render_column(
    world: &Hittable,
    background: &Texture,
    cam: &Camera,
    col: u32,
    width: u32,
    height: u32,
    samples: u32,
    depth: i32,
) -> (r: Vec<(u8, u8, u8)>)
    requires
        hittable_wf(*world),
        texture_wf(*background),
        width >= 2,
        height >= 2,
        samples >= 1,
    ensures
        r@.len() == height,
        exists|accs: Seq<Vec3V>|
            accs.len() == height && (forall|j: int|
                0 <= j < height ==> #[trigger] row_from_pixel(r@[j], accs[j], samples as int)),
{
    let mut out: Vec<(u8, u8, u8)> = Vec::new();
    let ghost mut accs: Seq<Vec3V> = Seq::empty();
    let mut j: u32 = 0;
    while j < height
        invariant
            out@.len() == j,
            j <= height,
            width >= 2,
            height >= 2,
            samples >= 1,
            hittable_wf(*world),
            texture_wf(*background),
            accs.len() == j,
            forall|k: int|
                0 <= k < j ==> #[trigger] row_from_pixel(out@[k], accs[k], samples as int),
        decreases height - j,
    {
        let mut pixel_color = Vec3::zero();
        let mut s: u32 = 0;
        while s < samples
            invariant
                hittable_wf(*world),
                texture_wf(*background),
                width >= 2,
                height >= 2,
                s <= samples,
            decreases samples - s,
        {
            let u = Fx::from_int(col as i64).add(rand_unit_fx()).div(
                Fx::from_int((width - 1) as i64),
            );
            let v = Fx::from_int(j as i64).add(rand_unit_fx()).div(
                Fx::from_int((height - 1) as i64),
            );
            let ray = cam.get_ray(u, v);
            pixel_color = pixel_color.add(ray_color(ray, background, world, depth));
            s = s + 1;
        }
        let entry = sample_to_rgb8(pixel_color, samples);
        out.push(entry);
        proof {
            accs = accs.push(pixel_color@);
        }
        j = j + 1;
    }
    out
}

} // verus!
