//! The camera: pixel samples to world-space rays, with a lens disk for
//! depth of field and a shutter interval for motion blur.

use vstd::prelude::*;
use crate::fixed::{fx_div_v, fx_mul_v, Fx, FX_UNIT};
use crate::hittable::radians_v;
use crate::ray::Ray;
use crate::rng::{rand_fx_between, random_in_unit_disk};
use crate::trig::{fx_cos, fx_cos_v, fx_sin, fx_sin_v};
use crate::vec3::{
    add_v, cross_v, div_scale_v, scale_v, sub_v, unit_v, Vec3, Vec3V,
};

verus! {

/// The mathematical value of a camera.
pub struct CameraV {
    pub origin: Vec3V,
    pub lower_left_corner: Vec3V,
    pub horizontal: Vec3V,
    pub vertical: Vec3V,
    pub u: Vec3V,
    pub v: Vec3V,
    pub lens_radius: int,
    pub time0: int,
    pub time1: int,
}

#[derive(Clone, Copy)]
pub struct Camera {
    origin: Vec3,
    lower_left_corner: Vec3,
    horizontal: Vec3,
    vertical: Vec3,
    u: Vec3,
    v: Vec3,
    lens_radius: Fx,
    time0: Fx,
    time1: Fx,
}

/// The tangent of half the vertical field of view, in fixed point.
pub open spec fn cam_half_tan_v(vfov: int) -> int {
    let theta = radians_v(vfov);
    let half = fx_div_v(theta, 2 * (FX_UNIT as int));
    fx_div_v(fx_sin_v(half), fx_cos_v(half))
}

/// The derived camera value: an orthonormal-like basis from the view
/// direction and the up vector, with the viewport scaled by the focus
/// distance.
pub open spec fn camera_v(
    lookfrom: Vec3V,
    lookat: Vec3V,
    vup: Vec3V,
    vfov: int,
    aspect_ratio: int,
    aperture: int,
    focus_dist: int,
    time0: int,
    time1: int,
) -> CameraV {
    let h = cam_half_tan_v(vfov);
    let viewport_height = fx_mul_v(2 * (FX_UNIT as int), h);
    let viewport_width = fx_mul_v(viewport_height, aspect_ratio);
    let w = unit_v(sub_v(lookfrom, lookat));
    let u = unit_v(cross_v(vup, w));
    let v = cross_v(w, u);
    let horizontal = scale_v(u, fx_mul_v(focus_dist, viewport_width));
    let vertical = scale_v(v, fx_mul_v(focus_dist, viewport_height));
    let two = 2 * (FX_UNIT as int);
    let lower_left_corner = sub_v(
        sub_v(sub_v(lookfrom, div_scale_v(horizontal, two)), div_scale_v(vertical, two)),
        scale_v(w, focus_dist),
    );
    CameraV {
        origin: lookfrom,
        lower_left_corner,
        horizontal,
        vertical,
        u,
        v,
        lens_radius: fx_div_v(aperture, two),
        time0,
        time1,
    }
}

/// The lens offset a drawn disk point gives.
pub open spec fn cam_offset_v(c: CameraV, d: Vec3V) -> Vec3V {
    let rd = scale_v(d, c.lens_radius);
    add_v(scale_v(c.u, rd.x), scale_v(c.v, rd.y))
}

/// The direction of the ray through viewport coordinates `(s, t)` from a
/// lens offset.
pub open spec fn cam_dir_v(c: CameraV, s: int, t: int, off: Vec3V) -> Vec3V {
    sub_v(
        sub_v(
            add_v(add_v(c.lower_left_corner, scale_v(c.horizontal, s)), scale_v(c.vertical, t)),
            c.origin,
        ),
        off,
    )
}

/// A point of the closed unit disk in the x-y plane, as the lens sampler
/// promises.
pub open spec fn in_disk_v(d: Vec3V) -> bool {
    &&& d.z == 0
    &&& -(FX_UNIT as int) <= d.x <= FX_UNIT as int
    &&& -(FX_UNIT as int) <= d.y <= FX_UNIT as int
}

impl View for Camera {
    type V = CameraV;

    closed spec fn view(&self) -> CameraV {
        CameraV {
            origin: self.origin@,
            lower_left_corner: self.lower_left_corner@,
            horizontal: self.horizontal@,
            vertical: self.vertical@,
            u: self.u@,
            v: self.v@,
            lens_radius: self.lens_radius@,
            time0: self.time0@,
            time1: self.time1@,
        }
    }
}

impl Camera {
    /// Build the camera from the eye and target points, the up vector,
    /// the vertical field of view in degrees, the aspect ratio, the
    /// aperture, the focus distance and the shutter interval.
    pub fn new(
        view_point: (Vec3, Vec3),
        vup: Vec3,
        vfov: Fx,
        aspect_ratio: Fx,
        aperture: Fx,
        focus_dist: Fx,
        time: (Fx, Fx),
    ) -> (r: Camera)
        ensures
            r@ == camera_v(
                view_point.0@,
                view_point.1@,
                vup@,
                vfov@,
                aspect_ratio@,
                aperture@,
                focus_dist@,
                time.0@,
                time.1@,
            ),
    {
        let two = Fx::from_int(2);
        let theta = vfov.mul(Fx::from_raw(crate::trig::PI_RAW)).div(Fx::from_int(180));
        let half = theta.div(two);
        let h = fx_sin(half).div(fx_cos(half));
        let viewport_height = two.mul(h);
        let viewport_width = viewport_height.mul(aspect_ratio);
        let w = view_point.0.sub(view_point.1).unit_vector();
        let u = vup.cross(w).unit_vector();
        let v = w.cross(u);
        let origin = view_point.0;
        let horizontal = u.scale(focus_dist.mul(viewport_width));
        let vertical = v.scale(focus_dist.mul(viewport_height));
        let lower_left_corner = origin.sub(horizontal.div_scale(two)).sub(
            vertical.div_scale(two),
        ).sub(w.scale(focus_dist));
        let lens_radius = aperture.div(two);
        let (time0, time1) = time;
        Camera {
            origin,
            lower_left_corner,
            horizontal,
            vertical,
            u,
            v,
            lens_radius,
            time0,
            time1,
        }
    }

    /// The ray through viewport coordinates `(s, t)`, cast from a random
    /// point of the lens disk at a random time within the shutter
    /// interval.
    pub fn get_ray(&self, s: Fx, t: Fx) -> (r: Ray)
        ensures
            exists|d: Vec3V|
                #[trigger] in_disk_v(d) && r.origin@ == add_v(self@.origin, cam_offset_v(self@, d))
                    && r.direction@ == cam_dir_v(self@, s@, t@, cam_offset_v(self@, d)),
            self@.time0 <= self@.time1 ==> self@.time0 <= r.time@ <= self@.time1,
    {
        let d = random_in_unit_disk();
        let rd = d.scale(self.lens_radius);
        let offset = self.u.scale(rd.x).add(self.v.scale(rd.y));
        let time = rand_fx_between(self.time0, self.time1);
        let r = Ray::new(
            self.origin.add(offset),
            self.lower_left_corner.add(self.horizontal.scale(s)).add(self.vertical.scale(t)).sub(
                self.origin,
            ).sub(offset),
            time,
        );
        proof {
            assert(in_disk_v(d@));
            assert(offset@ == cam_offset_v(self@, d@));
        }
        r
    }
}

} // verus!
