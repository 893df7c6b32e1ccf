//! Textures: a map from a surface coordinate and point to a color.

use vstd::prelude::*;
use crate::fixed::{clip, fdiv, fx_mul_v, Fx, FX_UNIT};
use crate::perlin::{perlin_wf, trub_v, Perlin};
use crate::trig::{fx_sin, fx_sin_v};
use crate::vec3::{scale_v, Color, Vec3, Vec3V};

verus! {

/// The number of turbulence octaves the noise texture sums.
pub const NOISE_OCTAVES: u32 = 7;

/// Largest accepted image side, so that pixel indices stay small.
pub const MAX_IMAGE_SIDE: usize = 4096;

pub struct SolidColor {
    pub color_value: Color,
}

pub struct CheckerTexture {
    pub odd: Box<Texture>,
    pub even: Box<Texture>,
}

pub struct NoiseTexture {
    pub noise: Perlin,
    pub scale: Fx,
}

/// A decoded 8-bit RGB image: `data` holds rows of `3 * width` bytes.
pub struct ImageTexture {
    pub data: Vec<u8>,
    pub width: usize,
    pub height: usize,
}

/// A decoded radiance image: `data` holds `width * height` linear colors,
/// scaled on lookup by the exposure limit.
pub struct HdrImageTexture {
    pub data: Vec<Color>,
    pub width: usize,
    pub height: usize,
    pub limit: Fx,
}

/// The closed set of texture variants.
pub enum Texture {
    Solid(SolidColor),
    Checker(CheckerTexture),
    Noise(NoiseTexture),
    Image(ImageTexture),
    Hdr(HdrImageTexture),
}

/// Well-formedness of a texture: noise tables have their size and image
/// buffers match their dimensions.
pub open spec fn texture_wf(t: Texture) -> bool
    decreases t,
{
    match t {
        Texture::Solid(_) => true,
        Texture::Checker(c) => texture_wf(*c.odd) && texture_wf(*c.even),
        Texture::Noise(n) => perlin_wf(n.noise),
        Texture::Image(im) => {
            &&& 0 < im.width <= MAX_IMAGE_SIDE
            &&& 0 < im.height <= MAX_IMAGE_SIDE
            &&& im.data@.len() == 3 * im.width * im.height
        },
        Texture::Hdr(im) => {
            &&& 0 < im.width <= MAX_IMAGE_SIDE
            &&& 0 < im.height <= MAX_IMAGE_SIDE
            &&& im.data@.len() == im.width * im.height
        },
    }
}

/// An 8-bit channel scaled into `[0, 1]`.
pub open spec fn byte_to_fx_v(b: int) -> int {
    fdiv(b * (FX_UNIT as int), 255)
}

pub open spec fn clamp_idx_v(x: int, hi: int) -> int {
    if x < 0 {
        0
    } else if x > hi {
        hi
    } else {
        x
    }
}

/// The pixel column selected by coordinate `u` on an axis of `n` pixels.
pub open spec fn pixel_index_v(u: int, n: int) -> int {
    clamp_idx_v(fdiv(fx_mul_v(u, clip(n * (FX_UNIT as int))), FX_UNIT as int), n - 1)
}

/// The checker sign: the product of the sines of ten times each coordinate.
pub open spec fn checker_sines_v(p: Vec3V) -> int {
    fx_mul_v(
        fx_mul_v(
            fx_sin_v(fx_mul_v(10 * (FX_UNIT as int), p.x)),
            fx_sin_v(fx_mul_v(10 * (FX_UNIT as int), p.y)),
        ),
        fx_sin_v(fx_mul_v(10 * (FX_UNIT as int), p.z)),
    )
}

/// The color a texture yields at surface coordinate `(u, v)` and point `p`.
pub open spec fn texture_value_v(t: Texture, u: int, v: int, p: Vec3V) -> Vec3V
    decreases t,
{
    match t {
        Texture::Solid(s) => s.color_value@,
        Texture::Checker(c) => if checker_sines_v(p) < 0 {
            texture_value_v(*c.odd, u, v, p)
        } else {
            texture_value_v(*c.even, u, v, p)
        },
        Texture::Noise(n) => {
            let s = trub_v(n.noise, scale_v(p, n.scale@), NOISE_OCTAVES as int);
            Vec3V { x: s, y: s, z: s }
        },
        Texture::Image(im) => {
            let i = pixel_index_v(u, im.width as int);
            let j = pixel_index_v(v, im.height as int);
            let base = 3 * (j * (im.width as int) + i);
            Vec3V {
                x: byte_to_fx_v(im.data@[base] as int),
                y: byte_to_fx_v(im.data@[base + 1] as int),
                z: byte_to_fx_v(im.data@[base + 2] as int),
            }
        },
        Texture::Hdr(im) => hdr_value_v(im, u, v),
    }
}

/// Bilinear lookup in a radiance image, scaled by the exposure limit.
pub open spec fn hdr_value_v(im: HdrImageTexture, u: int, v: int) -> Vec3V {
    let iw = fx_mul_v(u, clip((im.width as int) * (FX_UNIT as int)));
    let jh = fx_mul_v(v, clip((im.height as int) * (FX_UNIT as int)));
    let di = iw % (FX_UNIT as int);
    let dj = jh % (FX_UNIT as int);
    let v00 = fx_mul_v(clip(FX_UNIT as int - di), clip(FX_UNIT as int - dj));
    let v10 = fx_mul_v(di, clip(FX_UNIT as int - dj));
    let v01 = fx_mul_v(clip(FX_UNIT as int - di), dj);
    let v11 = fx_mul_v(di, dj);
    let i = clamp_idx_v(fdiv(iw, FX_UNIT as int), im.width as int - 1);
    let j = clamp_idx_v(fdiv(jh, FX_UNIT as int), im.height as int - 1);
    let last = (im.width as int) * (im.height as int) - 1;
    let idx = j * (im.width as int) + i;
    let c00 = im.data@[clamp_idx_v(idx, last)]@;
    let c10 = im.data@[clamp_idx_v(idx + 1, last)]@;
    let c01 = im.data@[clamp_idx_v(idx + im.width as int, last)]@;
    let c11 = im.data@[clamp_idx_v(idx + im.width as int + 1, last)]@;
    let mixed = crate::vec3::add_v(
        crate::vec3::add_v(
            crate::vec3::add_v(scale_v(c00, v00), scale_v(c01, v01)),
            scale_v(c10, v10),
        ),
        scale_v(c11, v11),
    );
    scale_v(mixed, im.limit@)
}

impl SolidColor {
    pub fn new(color_value: Color) -> (r: SolidColor)
        ensures
            r.color_value == color_value,
    {
        SolidColor { color_value }
    }
}

impl CheckerTexture {
    pub fn new(even: Texture, odd: Texture) -> (r: CheckerTexture)
        ensures
            r.even == even,
            r.odd == odd,
    {
        CheckerTexture { odd: Box::new(odd), even: Box::new(even) }
    }
}

impl NoiseTexture {
    pub fn new(scale: Fx) -> (r: NoiseTexture)
        ensures
            perlin_wf(r.noise),
            crate::perlin::perm_ok(r.noise.perm_x@),
            crate::perlin::perm_ok(r.noise.perm_y@),
            crate::perlin::perm_ok(r.noise.perm_z@),
            r.scale == scale,
    {
        NoiseTexture { noise: Perlin::new(), scale }
    }
}

impl ImageTexture {
    /// Wrap an already decoded 8-bit RGB buffer; decoding stays outside
    /// the library.
    pub fn new(data: Vec<u8>, width: usize, height: usize) -> (r: ImageTexture)
        requires
            0 < width <= MAX_IMAGE_SIDE,
            0 < height <= MAX_IMAGE_SIDE,
            data@.len() == 3 * width * height,
        ensures
            texture_wf(Texture::Image(r)),
            r.data == data,
            r.width == width,
            r.height == height,
    {
        ImageTexture { data, width, height }
    }
}

impl HdrImageTexture {
    /// Wrap an already decoded radiance buffer; decoding stays outside
    /// the library.
    pub fn new(data: Vec<Color>, width: usize, height: usize, limit: Fx) -> (r: HdrImageTexture)
        requires
            0 < width <= MAX_IMAGE_SIDE,
            0 < height <= MAX_IMAGE_SIDE,
            data@.len() == width * height,
        ensures
            texture_wf(Texture::Hdr(r)),
            r.data == data,
            r.width == width,
            r.height == height,
            r.limit == limit,
    {
        HdrImageTexture { data, width, height, limit }
    }
}

/// An 8-bit channel scaled into `[0, 1]`.
fn byte_to_fx(b: u8) -> (r: Fx)
    ensures
        r@ == byte_to_fx_v(b as int),
{
    let raw = (b as u32) * 65536 / 255;
    Fx::from_raw(raw as i64)
}

/// The pixel column selected by coordinate `u` on an axis of `n` pixels.
fn pixel_index(u: Fx, n: usize) -> (r: usize)
    requires
        0 < n <= MAX_IMAGE_SIDE,
    ensures
        r as int == pixel_index_v(u@, n as int),
        r < n,
{
    let t = u.mul(Fx::from_int(n as i64));
    let (q, _f) = t.floor_parts();
    if q < 0 {
        0
    } else if q > (n - 1) as i64 {
        n - 1
    } else {
        q as usize
    }
}

impl Texture {
    /// The color of the texture at `(u, v)` and point `p`.
    pub fn value(&self, u: Fx, v: Fx, p: Vec3) -> (r: Color)
        requires
            texture_wf(*self),
        ensures
            r@ == texture_value_v(*self, u@, v@, p@),
        decreases *self,
    {
        match self {
            Texture::Solid(s) => s.color_value,
            Texture::Checker(c) => {
                let ten = Fx::from_int(10);
                let sines = fx_sin(ten.mul(p.x)).mul(fx_sin(ten.mul(p.y))).mul(
                    fx_sin(ten.mul(p.z)),
                );
                if sines.lt(Fx::zero()) {
                    c.odd.value(u, v, p)
                } else {
                    c.even.value(u, v, p)
                }
            },
            Texture::Noise(n) => {
                let s = n.noise.trub(p.scale(n.scale), NOISE_OCTAVES);
                Vec3::new(s, s, s)
            },
            Texture::Image(im) => {
                let i = pixel_index(u, im.width);
                let j = pixel_index(v, im.height);
                proof {
                    assert((j as int) * (im.width as int) + (i as int)
                        < ((im.height as int) * (im.width as int))
                        && 0 < ((im.height as int) * (im.width as int))
                        && ((im.height as int) * (im.width as int)) <= 0x1000000
                        && 3 * (im.width as int) * (im.height as int) == 3 * (
                        (im.height as int) * (im.width as int)))
                        by (nonlinear_arith)
                        requires
                            i < im.width,
                            j < im.height,
                            0 < im.width <= MAX_IMAGE_SIDE,
                            0 < im.height <= MAX_IMAGE_SIDE,
                    ;
                }
                let base = 3 * (j * im.width + i);
                Vec3::new(
                    byte_to_fx(im.data[base]),
                    byte_to_fx(im.data[base + 1]),
                    byte_to_fx(im.data[base + 2]),
                )
            },
            Texture::Hdr(im) => im.value_bilinear(u, v),
        }
    }
}

impl HdrImageTexture {
    /// Bilinear lookup scaled by the exposure limit.
    fn value_bilinear(&self, u: Fx, v: Fx) -> (r: Color)
        requires
            texture_wf(Texture::Hdr(*self)),
        ensures
            r@ == hdr_value_v(*self, u@, v@),
    {
        let one = Fx::one();
        let iw = u.mul(Fx::from_int(self.width as i64));
        let jh = v.mul(Fx::from_int(self.height as i64));
        let di = iw.rem_euclid(one);
        let dj = jh.rem_euclid(one);
        let v00 = one.sub(di).mul(one.sub(dj));
        let v10 = di.mul(one.sub(dj));
        let v01 = one.sub(di).mul(dj);
        let v11 = di.mul(dj);
        let i = hdr_axis_index(iw, self.width);
        let j = hdr_axis_index(jh, self.height);
        proof {
            assert((j as int) * (self.width as int) + (i as int)
                < ((self.height as int) * (self.width as int))
                && 0 < ((self.height as int) * (self.width as int))
                && ((self.height as int) * (self.width as int)) <= 0x1000000)
                by (nonlinear_arith)
                requires
                    i < self.width,
                    j < self.height,
                    0 < self.width <= MAX_IMAGE_SIDE,
                    0 < self.height <= MAX_IMAGE_SIDE,
            ;
        }
        let total = self.width * self.height;
        let idx = j * self.width + i;
        let c00 = self.data[clamp_index(idx, total - 1)];
        let c10 = self.data[clamp_index(idx + 1, total - 1)];
        let c01 = self.data[clamp_index(idx + self.width, total - 1)];
        let c11 = self.data[clamp_index(idx + self.width + 1, total - 1)];
        let mixed = c00.scale(v00).add(c01.scale(v01)).add(c10.scale(v10)).add(c11.scale(v11));
        mixed.scale(self.limit)
    }
}

/// The integer part of a scaled coordinate, clamped to the axis.
fn hdr_axis_index(t: Fx, n: usize) -> (r: usize)
    requires
        0 < n <= MAX_IMAGE_SIDE,
    ensures
        r as int == clamp_idx_v(fdiv(t@, FX_UNIT as int), n as int - 1),
        r < n,
{
    let (q, _f) = t.floor_parts();
    if q < 0 {
        0
    } else if q > (n - 1) as i64 {
        n - 1
    } else {
        q as usize
    }
}

fn clamp_index(x: usize, hi: usize) -> (r: usize)
    ensures
        r as int == clamp_idx_v(x as int, hi as int),
        r <= hi,
{
    if x > hi {
        hi
    } else {
        x
    }
}

} // verus!
