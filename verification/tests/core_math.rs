//! Exact checks of the fixed-point scalar, vector and ray operations.

use raytracer::fixed::Fx;
use raytracer::trig::{fx_acos, fx_cos, fx_neg_ln, fx_sin};
use raytracer::ray::Ray;
use raytracer::vec3::Vec3;

fn fx(v: f64) -> Fx {
    Fx::from_raw((v * 65536.0).round() as i64)
}

#[test]
fn fx_add_sub_mul_exact() {
    let a = Fx::from_int(3);
    let b = Fx::from_int(4);
    assert_eq!(a.add(b).raw(), 7 * 65536);
    assert_eq!(a.sub(b).raw(), -65536);
    assert_eq!(a.mul(b).raw(), 12 * 65536);
    assert_eq!(a.neg().raw(), -3 * 65536);
}

#[test]
fn fx_div_rounds_toward_negative_infinity() {
    let one = Fx::one();
    let three = Fx::from_int(3);
    // 1/3 in raw units: floor(65536 * 65536 / 196608) = 21845
    assert_eq!(one.div(three).raw(), 21845);
    let neg_one = one.neg();
    assert_eq!(neg_one.div(three).raw(), -21846);
    assert_eq!(one.div(Fx::zero()).raw(), 0);
}

#[test]
fn fx_sqrt_exact_squares() {
    assert_eq!(Fx::from_int(4).sqrt().raw(), 2 * 65536);
    assert_eq!(Fx::from_int(9).sqrt().raw(), 3 * 65536);
    assert_eq!(Fx::one().sqrt().raw(), 65536);
    assert_eq!(Fx::from_int(-5).sqrt().raw(), 0);
    // sqrt(2) rounds down to the fixed-point floor of 1.41421356...
    let s = Fx::from_int(2).sqrt();
    assert!((s.raw() - 92681).abs() <= 1, "sqrt(2) raw {}", s.raw());
}

#[test]
fn fx_min_max_abs_clamp() {
    let a = fx(-1.5);
    let b = fx(2.5);
    assert_eq!(a.min(b).raw(), a.raw());
    assert_eq!(a.max(b).raw(), b.raw());
    assert_eq!(a.abs().raw(), fx(1.5).raw());
    assert_eq!(b.clamp(Fx::zero(), Fx::one()).raw(), 65536);
}

#[test]
fn vec3_dot_cross_length() {
    let a = Vec3::from_ints(1, 2, 3);
    let b = Vec3::from_ints(4, 5, 6);
    assert_eq!(a.dot(b).raw(), 32 * 65536);
    let c = a.cross(b);
    assert_eq!(c.x.raw(), -3 * 65536);
    assert_eq!(c.y.raw(), 6 * 65536);
    assert_eq!(c.z.raw(), -3 * 65536);
    let d = Vec3::from_ints(3, 4, 0);
    assert_eq!(d.length().raw(), 5 * 65536);
}

#[test]
fn vec3_unit_vector_has_unit_length() {
    let d = Vec3::from_ints(3, 4, 0);
    let u = d.unit_vector();
    let lsq = u.length_squared().raw();
    assert!((lsq - 65536).abs() <= 8, "unit length squared raw {}", lsq);
}

#[test]
fn vec3_reflect_mirror() {
    // reflecting (1, -1, 0) about the y axis normal gives (1, 1, 0)
    let v = Vec3::from_ints(1, -1, 0);
    let n = Vec3::from_ints(0, 1, 0);
    let r = Vec3::reflect(v, n);
    assert_eq!(r.x.raw(), 65536);
    assert_eq!(r.y.raw(), 65536);
    assert_eq!(r.z.raw(), 0);
}

#[test]
fn ray_at_walks_the_line() {
    let r = Ray::new(Vec3::from_ints(1, 0, 0), Vec3::from_ints(0, 0, -1), Fx::zero());
    let p = r.at(Fx::from_int(3));
    assert_eq!(p.x.raw(), 65536);
    assert_eq!(p.y.raw(), 0);
    assert_eq!(p.z.raw(), -3 * 65536);
}

#[test]
fn trig_fixed_points() {
    assert_eq!(fx_sin(Fx::zero()).raw(), 0);
    let c = fx_cos(Fx::zero()).raw();
    assert!((c - 65536).abs() <= 400, "cos(0) raw {}", c);
    let s = fx_sin(Fx::from_raw(102943)).raw(); // sin(pi/2)
    assert!((s - 65536).abs() <= 400, "sin(pi/2) raw {}", s);
    assert_eq!(fx_neg_ln(Fx::one()).raw(), 0);
    assert_eq!(fx_acos(Fx::one()).raw(), 0);
    // -ln(1/2) = 0.693...; the series is at its least accurate here.
    let ln_half = fx_neg_ln(Fx::from_raw(32768)).raw();
    assert!((ln_half - 45426).abs() <= 1200, "-ln(0.5) raw {}", ln_half);
}
