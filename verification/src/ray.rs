//! Rays: an origin, a direction, and the shutter time the ray was cast at.

use vstd::prelude::*;
use crate::vec3::{add_v, scale_v, Vec3, Vec3V};

verus! {

/// The mathematical value of a ray.
pub struct RayV {
    pub origin: Vec3V,
    pub direction: Vec3V,
    pub time: int,
}

#[derive(Clone, Copy, Debug, PartialEq, Eq, Structural)]
pub struct Ray {
    pub origin: Vec3,
    pub direction: Vec3,
    pub time: crate::fixed::Fx,
}

/// The point a ray reaches at parameter `t`.
pub open spec fn ray_at_v(r: RayV, t: int) -> Vec3V {
    add_v(r.origin, scale_v(r.direction, t))
}

impl View for Ray {
    type V = RayV;

    open spec fn view(&self) -> RayV {
        RayV { origin: self.origin@, direction: self.direction@, time: self.time@ }
    }
}

impl Ray {
    pub fn new(origin: Vec3, direction: Vec3, time: crate::fixed::Fx) -> (r: Ray)
        ensures
            r@ == (RayV { origin: origin@, direction: direction@, time: time@ }),
    {
        Ray { origin, direction, time }
    }

    /// The point on the ray at parameter `t`.
    pub fn at(self, t: crate::fixed::Fx) -> (r: Vec3)
        ensures
            r@ == ray_at_v(self@, t@),
    {
        self.origin.add(self.direction.scale(t))
    }
}

} // verus!
