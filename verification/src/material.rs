//! Materials: how a surface scatters and emits light.

use vstd::prelude::*;
use crate::fixed::{clip, fx_div_v, fx_mul_v, fx_sqrt_v, Fx, FX_UNIT};
use crate::hittable::HitRecord;
use crate::ray::{Ray, RayV};
use crate::rng::{rand_unit_fx, random_in_unit_sphere, random_unit_vector};
use crate::texture::{texture_value_v, texture_wf, Texture};
use crate::vec3::{
    add_v, dot_v, reflect_v, refract_v, scale_v, unit_v, Color, Vec3, Vec3V,
};

verus! {

pub struct Lambertian {
    pub albedo: Texture,
}

pub struct Metal {
    pub albedo: Color,
    pub fuzz: Fx,
}

pub struct Dielectric {
    pub ir: Fx,
}

pub struct DiffuseLight {
    pub emit: Texture,
}

pub struct Isotropic {
    pub albedo: Texture,
}

/// The closed set of material variants.
pub enum Material {
    Lambertian(Lambertian),
    Metal(Metal),
    Dielectric(Dielectric),
    DiffuseLight(DiffuseLight),
    Isotropic(Isotropic),
}

/// Well-formedness: the textures a material carries are well-formed.
pub open spec fn material_wf(m: Material) -> bool {
    match m {
        Material::Lambertian(l) => texture_wf(l.albedo),
        Material::Metal(_) => true,
        Material::Dielectric(_) => true,
        Material::DiffuseLight(d) => texture_wf(d.emit),
        Material::Isotropic(i) => texture_wf(i.albedo),
    }
}

/// The zero color.
pub open spec fn black_v() -> Vec3V {
    Vec3V { x: 0, y: 0, z: 0 }
}

/// The white color, attenuation of a clear dielectric.
pub open spec fn white_v() -> Vec3V {
    Vec3V { x: FX_UNIT as int, y: FX_UNIT as int, z: FX_UNIT as int }
}

/// What a material emits: only a diffuse light emits its texture.
pub open spec fn emitted_v(m: Material, u: int, v: int, p: Vec3V) -> Vec3V {
    match m {
        Material::DiffuseLight(d) => texture_value_v(d.emit, u, v, p),
        _ => black_v(),
    }
}

/// A vector drawn from the symmetric unit cube, as the random helpers
/// promise: every component lies in `[-1, 1]`.
pub open spec fn in_unit_cube_v(d: Vec3V) -> bool {
    &&& -(FX_UNIT as int) <= d.x <= FX_UNIT as int
    &&& -(FX_UNIT as int) <= d.y <= FX_UNIT as int
    &&& -(FX_UNIT as int) <= d.z <= FX_UNIT as int
}

/// A vector inside the open unit ball.
pub open spec fn in_unit_ball_v(d: Vec3V) -> bool {
    0 <= dot_v(d, d) < FX_UNIT as int
}

/// The diffuse scatter direction for a drawn unit vector `d`: the normal
/// plus `d`, or the normal alone when that sum vanishes.
pub open spec fn lambertian_dir_v(normal: Vec3V, d: Vec3V) -> Vec3V {
    if add_v(normal, d) == black_v() {
        normal
    } else {
        add_v(normal, d)
    }
}

/// The mirror direction a metal reflects along, before fuzzing.
pub open spec fn metal_reflect_v(ray_dir: Vec3V, normal: Vec3V) -> Vec3V {
    reflect_v(unit_v(ray_dir), normal)
}

/// The refraction ratio a dielectric applies on a hit.
pub open spec fn dielectric_ratio_v(ir: int, front_face: bool) -> int {
    if front_face {
        fx_div_v(FX_UNIT as int, ir)
    } else {
        ir
    }
}

/// The cosine the dielectric uses, capped at one.
pub open spec fn dielectric_cos_v(ray_dir: Vec3V, normal: Vec3V) -> int {
    let c = dot_v(neg_unit_v(ray_dir), normal);
    if c <= FX_UNIT as int {
        c
    } else {
        FX_UNIT as int
    }
}

pub open spec fn neg_unit_v(ray_dir: Vec3V) -> Vec3V {
    crate::vec3::neg_v(unit_v(ray_dir))
}

/// The sine derived from that cosine.
pub open spec fn dielectric_sin_v(ray_dir: Vec3V, normal: Vec3V) -> int {
    let c = dielectric_cos_v(ray_dir, normal);
    fx_sqrt_v(clip(FX_UNIT as int - fx_mul_v(c, c)))
}

/// Total internal reflection: the scaled sine leaves the unit range.
pub open spec fn cannot_refract_v(ray_dir: Vec3V, normal: Vec3V, ratio: int) -> bool {
    fx_mul_v(ratio, dielectric_sin_v(ray_dir, normal)) > FX_UNIT as int
}

/// Schlick's reflectance approximation.
pub open spec fn reflectance_v(cosine: int, ref_idx: int) -> int {
    let r0 = fx_div_v(clip(FX_UNIT as int - ref_idx), clip(FX_UNIT as int + ref_idx));
    let r0p = fx_mul_v(r0, r0);
    let m = clip(FX_UNIT as int - cosine);
    let m5 = fx_mul_v(fx_mul_v(fx_mul_v(fx_mul_v(m, m), m), m), m);
    clip(r0p + fx_mul_v(clip(FX_UNIT as int - r0p), m5))
}

/// At a matched refractive index and exact normal incidence the
/// dielectric passes the ray straight through: refraction returns the
/// incoming unit direction unchanged, and the reflectance vanishes, so
/// the scatter contract pins the refracted branch.  At other angles
/// fixed-point rounding keeps the refracted ray only approximately
/// collinear with the incoming one.
pub proof fn lemma_unit_index_normal_incidence(n: Vec3V, uv: Vec3V)
    requires
        dot_v(n, n) == FX_UNIT as int,
        -(FX_UNIT as int) <= n.x <= FX_UNIT as int,
        -(FX_UNIT as int) <= n.y <= FX_UNIT as int,
        -(FX_UNIT as int) <= n.z <= FX_UNIT as int,
        uv == crate::vec3::neg_v(n),
    ensures
        refract_v(uv, n, FX_UNIT as int) == uv,
        reflectance_v(FX_UNIT as int, FX_UNIT as int) == 0,
{
    let u = FX_UNIT as int;
    crate::fixed::lemma_fx_mul_units(n.x);
    crate::fixed::lemma_fx_mul_units(n.y);
    crate::fixed::lemma_fx_mul_units(n.z);
    crate::fixed::lemma_fx_mul_units(0);
    crate::fixed::lemma_fx_mul_units(u);
    assert(crate::vec3::neg_v(uv) == n);
    let cos = dot_v(crate::vec3::neg_v(uv), n);
    assert(cos == u);
    let inner = add_v(uv, scale_v(n, u));
    assert(inner == (Vec3V { x: 0, y: 0, z: 0 }));
    let perp = scale_v(inner, u);
    assert(perp == (Vec3V { x: 0, y: 0, z: 0 }));
    assert(dot_v(perp, perp) == 0);
    crate::fixed::lemma_fx_sqrt_unit();
    let par = scale_v(n, -fx_sqrt_v(clip(u - 0)));
    assert(par == crate::vec3::neg_v(n));
    assert(add_v(perp, par) == uv);
    assert(refract_v(uv, n, u) == uv);
    assert(fx_div_v(clip(u - u), clip(u + u)) == 0) by {
        assert(clip(u - u) == 0);
        assert(crate::fixed::fdiv(0 * u, clip(u + u)) == 0) by {
            vstd::arithmetic::div_mod::lemma_div_multiples_vanish(0, clip(u + u));
            assert(0 * u == clip(u + u) * 0) by (nonlinear_arith);
        }
    }
    assert(reflectance_v(u, u) == 0);
}

impl Lambertian {
    pub fn new(albedo: Texture) -> (r: Lambertian)
        ensures
            r.albedo == albedo,
    {
        Lambertian { albedo }
    }
}

impl Metal {
    pub fn new(color: Color, fuzz: Fx) -> (r: Metal)
        ensures
            r.albedo == color,
            r.fuzz == fuzz,
    {
        Metal { albedo: color, fuzz }
    }
}

impl Dielectric {
    pub fn new(ir: Fx) -> (r: Dielectric)
        ensures
            r.ir == ir,
    {
        Dielectric { ir }
    }

    /// Schlick's reflectance approximation.
    pub fn reflectance(cosine: Fx, ref_idx: Fx) -> (r: Fx)
        ensures
            r@ == reflectance_v(cosine@, ref_idx@),
    {
        let one = Fx::one();
        let r0 = one.sub(ref_idx).div(one.add(ref_idx));
        let r0p = r0.mul(r0);
        let m = one.sub(cosine);
        let m5 = m.mul(m).mul(m).mul(m).mul(m);
        r0p.add(one.sub(r0p).mul(m5))
    }
}

impl DiffuseLight {
    pub fn new(emit: Texture) -> (r: DiffuseLight)
        ensures
            r.emit == emit,
    {
        DiffuseLight { emit }
    }
}

impl Isotropic {
    pub fn new(albedo: Texture) -> (r: Isotropic)
        ensures
            r.albedo == albedo,
    {
        Isotropic { albedo }
    }
}

impl Material {
    /// What the material emits at a surface coordinate: a diffuse light
    /// emits its texture's value, every other material emits black.
    pub fn emitted(&self, u: Fx, v: Fx, p: Vec3) -> (r: Color)
        requires
            material_wf(*self),
        ensures
            r@ == emitted_v(*self, u@, v@, p@),
    {
        match self {
            Material::DiffuseLight(d) => d.emit.value(u, v, p),
            _ => Vec3::zero(),
        }
    }

    /// Scatter an incoming ray at a hit.  `None` means the path is
    /// absorbed.  A diffuse light never scatters; a Lambertian, a
    /// dielectric and an isotropic medium always scatter; a metal
    /// scatters exactly when its mirror direction leaves the surface.
    pub fn scatter(&self, ray: &Ray, rec: &HitRecord) -> (r: Option<(Color, Ray)>)
        requires
            material_wf(*self),
        ensures
            self is DiffuseLight ==> r is None,
            self matches Material::Lambertian(l) ==> r matches Some(s) && {
                &&& s.0@ == texture_value_v(l.albedo, rec.u@, rec.v@, rec.point@)
                &&& s.1.origin@ == rec.point@
                &&& s.1.time@ == ray.time@
                &&& exists|d: Vec3V| #[trigger] in_unit_cube_v(d)
                    && s.1.direction@ == lambertian_dir_v(rec.normal@, d)
            },
            self matches Material::Metal(m) ==> {
                &&& m.fuzz@ == 0 ==> ((r is Some) <==> dot_v(
                    metal_reflect_v(ray@.direction, rec.normal@),
                    rec.normal@,
                ) > 0)
                &&& r matches Some(s) ==> {
                    &&& s.0@ == m.albedo@
                    &&& s.1.origin@ == rec.point@
                    &&& s.1.time@ == ray.time@
                    &&& dot_v(s.1.direction@, rec.normal@) > 0
                    &&& exists|p: Vec3V| #[trigger] in_unit_ball_v(p)
                        && s.1.direction@ == add_v(
                            metal_reflect_v(ray@.direction, rec.normal@),
                            scale_v(p, m.fuzz@),
                        )
                }
            },
            self matches Material::Dielectric(dl) ==> r matches Some(s) && {
                let ratio = dielectric_ratio_v(dl.ir@, rec.front_face);
                &&& s.0@ == white_v()
                &&& s.1.origin@ == rec.point@
                &&& s.1.time@ == ray.time@
                &&& (s.1.direction@ == reflect_v(unit_v(ray@.direction), rec.normal@)
                    || s.1.direction@ == refract_v(unit_v(ray@.direction), rec.normal@, ratio))
                &&& cannot_refract_v(ray@.direction, rec.normal@, ratio)
                    ==> s.1.direction@ == reflect_v(unit_v(ray@.direction), rec.normal@)
                &&& (!cannot_refract_v(ray@.direction, rec.normal@, ratio) && reflectance_v(
                    dielectric_cos_v(ray@.direction, rec.normal@),
                    ratio,
                ) == 0) ==> s.1.direction@ == refract_v(unit_v(ray@.direction), rec.normal@, ratio)
            },
            self matches Material::Isotropic(iso) ==> r matches Some(s) && {
                &&& s.0@ == texture_value_v(iso.albedo, rec.u@, rec.v@, rec.point@)
                &&& s.1.origin@ == rec.point@
                &&& s.1.time@ == ray.time@
                &&& in_unit_ball_v(s.1.direction@)
            },
    {
        match self {
            Material::Lambertian(l) => {
                let d = random_unit_vector();
                let mut direction = rec.normal.add(d);
                if direction.near_zero() {
                    direction = rec.normal;
                }
                proof {
                    assert(in_unit_cube_v(d@));
                }
                Some((
                    l.albedo.value(rec.u, rec.v, rec.point),
                    Ray::new(rec.point, direction, ray.time),
                ))
            },
            Material::Metal(m) => {
                let reflected = Vec3::reflect(ray.direction.unit_vector(), rec.normal);
                let p = random_in_unit_sphere();
                let direction = reflected.add(p.scale(m.fuzz));
                proof {
                    assert(in_unit_ball_v(p@));
                    if m.fuzz@ == 0 {
                        use_type_invariant(reflected.x);
                        use_type_invariant(reflected.y);
                        use_type_invariant(reflected.z);
                        use_type_invariant(p.x);
                        use_type_invariant(p.y);
                        use_type_invariant(p.z);
                        reflected.x.lemma_bounded();
                        reflected.y.lemma_bounded();
                        reflected.z.lemma_bounded();
                        p.x.lemma_bounded();
                        p.y.lemma_bounded();
                        p.z.lemma_bounded();
                        crate::fixed::lemma_fx_mul_units(p@.x);
                        crate::fixed::lemma_fx_mul_units(p@.y);
                        crate::fixed::lemma_fx_mul_units(p@.z);
                        assert(direction@ == reflected@);
                    }
                }
                if Fx::zero().lt(direction.dot(rec.normal)) {
                    Some((m.albedo, Ray::new(rec.point, direction, ray.time)))
                } else {
                    None
                }
            },
            Material::Dielectric(dl) => {
                let one = Fx::one();
                let refraction_ratio = if rec.front_face {
                    one.div(dl.ir)
                } else {
                    dl.ir
                };
                let unit_direction = ray.direction.unit_vector();
                let cos_theta = unit_direction.neg().dot(rec.normal).min(one);
                let sin_theta = one.sub(cos_theta.mul(cos_theta)).sqrt();
                let cannot = one.lt(refraction_ratio.mul(sin_theta));
                let draw = rand_unit_fx();
                let white = Vec3::one();
                if cannot || draw.lt(Dielectric::reflectance(cos_theta, refraction_ratio)) {
                    let reflected = Vec3::reflect(unit_direction, rec.normal);
                    Some((white, Ray::new(rec.point, reflected, ray.time)))
                } else {
                    let refracted = Vec3::refract(unit_direction, rec.normal, refraction_ratio);
                    Some((white, Ray::new(rec.point, refracted, ray.time)))
                }
            },
            Material::DiffuseLight(_) => None,
            Material::Isotropic(iso) => {
                let d = random_in_unit_sphere();
                Some((
                    iso.albedo.value(rec.u, rec.v, rec.point),
                    Ray::new(rec.point, d, ray.time),
                ))
            },
        }
    }
}

} // verus!
