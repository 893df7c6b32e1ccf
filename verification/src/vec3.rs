//! Three-component fixed-point vectors, used for points, directions and
//! colors alike.

use vstd::prelude::*;
use crate::fixed::{clip, fx_div_v, fx_mul_v, fx_sqrt_v, Fx, FX_UNIT};


verus! {

/// The mathematical value of a vector: three raw fixed-point components.
pub struct Vec3V {
    pub x: int,
    pub y: int,
    pub z: int,
}

/// A vector of three fixed-point scalars.
#[derive(Clone, Copy, Debug, PartialEq, Eq, Structural)]
pub struct Vec3 {
    pub x: Fx,
    pub y: Fx,
    pub z: Fx,
}

/// Colors are vectors of red, green and blue intensities.
pub type Color = Vec3;

pub open spec fn add_v(a: Vec3V, b: Vec3V) -> Vec3V {
    Vec3V { x: clip(a.x + b.x), y: clip(a.y + b.y), z: clip(a.z + b.z) }
}

pub open spec fn sub_v(a: Vec3V, b: Vec3V) -> Vec3V {
    Vec3V { x: clip(a.x - b.x), y: clip(a.y - b.y), z: clip(a.z - b.z) }
}

pub open spec fn neg_v(a: Vec3V) -> Vec3V {
    Vec3V { x: -a.x, y: -a.y, z: -a.z }
}

pub open spec fn scale_v(a: Vec3V, s: int) -> Vec3V {
    Vec3V { x: fx_mul_v(a.x, s), y: fx_mul_v(a.y, s), z: fx_mul_v(a.z, s) }
}

pub open spec fn mul_comp_v(a: Vec3V, b: Vec3V) -> Vec3V {
    Vec3V { x: fx_mul_v(a.x, b.x), y: fx_mul_v(a.y, b.y), z: fx_mul_v(a.z, b.z) }
}

pub open spec fn div_scale_v(a: Vec3V, s: int) -> Vec3V {
    Vec3V { x: fx_div_v(a.x, s), y: fx_div_v(a.y, s), z: fx_div_v(a.z, s) }
}

pub open spec fn dot_v(a: Vec3V, b: Vec3V) -> int {
    clip(clip(fx_mul_v(a.x, b.x) + fx_mul_v(a.y, b.y)) + fx_mul_v(a.z, b.z))
}

pub open spec fn cross_v(a: Vec3V, b: Vec3V) -> Vec3V {
    Vec3V {
        x: clip(fx_mul_v(a.y, b.z) - fx_mul_v(a.z, b.y)),
        y: clip(fx_mul_v(a.z, b.x) - fx_mul_v(a.x, b.z)),
        z: clip(fx_mul_v(a.x, b.y) - fx_mul_v(a.y, b.x)),
    }
}

pub open spec fn length_squared_v(a: Vec3V) -> int {
    dot_v(a, a)
}

pub open spec fn length_v(a: Vec3V) -> int {
    fx_sqrt_v(length_squared_v(a))
}

pub open spec fn unit_v(a: Vec3V) -> Vec3V {
    div_scale_v(a, length_v(a))
}

/// Mirror reflection of `v` about the normal `n`.
pub open spec fn reflect_v(v: Vec3V, n: Vec3V) -> Vec3V {
    sub_v(v, scale_v(n, fx_mul_v(2 * (FX_UNIT as int), dot_v(v, n))))
}

/// Snell refraction of the unit direction `uv` at a surface with normal
/// `n` and refraction ratio `eta`: the perpendicular part is scaled by
/// `eta`, the parallel part restores the length.
pub open spec fn refract_v(uv: Vec3V, n: Vec3V, eta: int) -> Vec3V {
    let cos_theta = if dot_v(neg_v(uv), n) <= FX_UNIT as int {
        dot_v(neg_v(uv), n)
    } else {
        FX_UNIT as int
    };
    let perp = scale_v(add_v(uv, scale_v(n, cos_theta)), eta);
    let k = clip(FX_UNIT as int - dot_v(perp, perp));
    let ak = if k >= 0 { k } else { -k };
    add_v(perp, scale_v(n, -fx_sqrt_v(ak)))
}

/// The component of a vector on a given axis (x is 0, y is 1, z is 2).
pub open spec fn axis_v(a: Vec3V, i: int) -> int {
    if i == 0 {
        a.x
    } else if i == 1 {
        a.y
    } else {
        a.z
    }
}

impl View for Vec3 {
    type V = Vec3V;

    open spec fn view(&self) -> Vec3V {
        Vec3V { x: self.x@, y: self.y@, z: self.z@ }
    }
}

impl Vec3 {
    pub fn new(x: Fx, y: Fx, z: Fx) -> (r: Vec3)
        ensures
            r@ == (Vec3V { x: x@, y: y@, z: z@ }),
    {
        Vec3 { x, y, z }
    }

    /// Build a vector with integer-valued components.
    pub fn from_ints(x: i64, y: i64, z: i64) -> (r: Vec3)
        ensures
            r@ == (Vec3V {
                x: clip(x * (FX_UNIT as int)),
                y: clip(y * (FX_UNIT as int)),
                z: clip(z * (FX_UNIT as int)),
            }),
    {
        Vec3 { x: Fx::from_int(x), y: Fx::from_int(y), z: Fx::from_int(z) }
    }

    pub fn zero() -> (r: Vec3)
        ensures
            r@ == (Vec3V { x: 0, y: 0, z: 0 }),
    {
        Vec3 { x: Fx::zero(), y: Fx::zero(), z: Fx::zero() }
    }

    pub fn one() -> (r: Vec3)
        ensures
            r@ == (Vec3V {
                x: FX_UNIT as int,
                y: FX_UNIT as int,
                z: FX_UNIT as int,
            }),
    {
        Vec3 { x: Fx::one(), y: Fx::one(), z: Fx::one() }
    }

    pub fn add(self, o: Vec3) -> (r: Vec3)
        ensures
            r@ == add_v(self@, o@),
    {
        Vec3 { x: self.x.add(o.x), y: self.y.add(o.y), z: self.z.add(o.z) }
    }

    pub fn sub(self, o: Vec3) -> (r: Vec3)
        ensures
            r@ == sub_v(self@, o@),
    {
        Vec3 { x: self.x.sub(o.x), y: self.y.sub(o.y), z: self.z.sub(o.z) }
    }

    pub fn neg(self) -> (r: Vec3)
        ensures
            r@ == neg_v(self@),
    {
        Vec3 { x: self.x.neg(), y: self.y.neg(), z: self.z.neg() }
    }

    pub fn scale(self, s: Fx) -> (r: Vec3)
        ensures
            r@ == scale_v(self@, s@),
    {
        Vec3 { x: self.x.mul(s), y: self.y.mul(s), z: self.z.mul(s) }
    }

    /// Componentwise product, used for color attenuation.
    pub fn mul_comp(self, o: Vec3) -> (r: Vec3)
        ensures
            r@ == mul_comp_v(self@, o@),
    {
        Vec3 { x: self.x.mul(o.x), y: self.y.mul(o.y), z: self.z.mul(o.z) }
    }

    pub fn div_scale(self, s: Fx) -> (r: Vec3)
        ensures
            r@ == div_scale_v(self@, s@),
    {
        Vec3 { x: self.x.div(s), y: self.y.div(s), z: self.z.div(s) }
    }

    pub fn dot(self, o: Vec3) -> (r: Fx)
        ensures
            r@ == dot_v(self@, o@),
    {
        self.x.mul(o.x).add(self.y.mul(o.y)).add(self.z.mul(o.z))
    }

    pub fn cross(self, o: Vec3) -> (r: Vec3)
        ensures
            r@ == cross_v(self@, o@),
    {
        Vec3 {
            x: self.y.mul(o.z).sub(self.z.mul(o.y)),
            y: self.z.mul(o.x).sub(self.x.mul(o.z)),
            z: self.x.mul(o.y).sub(self.y.mul(o.x)),
        }
    }

    pub fn length_squared(self) -> (r: Fx)
        ensures
            r@ == length_squared_v(self@),
    {
        self.dot(self)
    }

    pub fn length(self) -> (r: Fx)
        ensures
            r@ == length_v(self@),
            r@ >= 0,
    {
        self.length_squared().sqrt()
    }

    /// Scale to (approximately) unit length; the zero vector stays zero.
    pub fn unit_vector(self) -> (r: Vec3)
        ensures
            r@ == unit_v(self@),
    {
        self.div_scale(self.length())
    }

    /// Whether every component is smaller than one raw quantum in magnitude.
    pub fn near_zero(self) -> (r: bool)
        ensures
            r == (self@.x == 0 && self@.y == 0 && self@.z == 0),
    {
        self.x.is_zero() && self.y.is_zero() && self.z.is_zero()
    }

    pub fn reflect(v: Vec3, n: Vec3) -> (r: Vec3)
        ensures
            r@ == reflect_v(v@, n@),
    {
        let two = Fx::from_int(2);
        v.sub(n.scale(two.mul(v.dot(n))))
    }

    /// Snell refraction of the unit direction `uv` about normal `n`.
    pub fn refract(uv: Vec3, n: Vec3, eta: Fx) -> (r: Vec3)
        ensures
            r@ == refract_v(uv@, n@, eta@),
    {
        let one = Fx::one();
        let cos_theta = uv.neg().dot(n).min(one);
        let perp = uv.add(n.scale(cos_theta)).scale(eta);
        let k = one.sub(perp.dot(perp));
        let par = n.scale(k.abs().sqrt().neg());
        perp.add(par)
    }

    /// The component on axis `i` (x is 0, y is 1, z is 2).
    pub fn axis(self, i: usize) -> (r: Fx)
        requires
            i < 3,
        ensures
            r@ == axis_v(self@, i as int),
    {
        if i == 0 {
            self.x
        } else if i == 1 {
            self.y
        } else {
            self.z
        }
    }
}

} // verus!
