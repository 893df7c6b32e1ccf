//! Intersection behaviour: spheres, rectangles, boxes and the slab test.

use std::sync::Arc;
use raytracer::fixed::Fx;
use raytracer::hittable::{
    Hittable, HittableList, MovingSphere, RectBox, RotateY, Sphere, Translate, Triangle, XYRect,
};
use raytracer::material::{Lambertian, Material};
use raytracer::ray::Ray;
use raytracer::texture::{SolidColor, Texture};
use raytracer::vec3::{Color, Vec3};
use raytracer::Aabb;

fn fx(v: f64) -> Fx {
    Fx::from_raw((v * 65536.0).round() as i64)
}

fn gray() -> Arc<Material> {
    Arc::new(Material::Lambertian(Lambertian::new(Texture::Solid(SolidColor::new(
        Color::new(fx(0.5), fx(0.5), fx(0.5)),
    )))))
}

fn t_eps() -> Fx {
    Fx::from_raw(7)
}

#[test]
fn sphere_hit_point_lies_on_surface() {
    // An axial ray meets the unit sphere at distance one, exactly.
    let s = Hittable::Sphere(Sphere::new(Vec3::from_ints(0, 0, -2), Fx::one(), gray()));
    let ray = Ray::new(Vec3::from_ints(0, 0, 0), Vec3::from_ints(0, 0, -1), Fx::zero());
    let rec = s.hit(ray, t_eps(), Fx::from_int(1000)).expect("must hit");
    assert_eq!(rec.t.raw(), 65536);
    assert_eq!(rec.point.z.raw(), -65536);
    // An oblique ray: the hit point stays on the surface and the normal
    // stays near unit length, within fixed-point tolerance.
    let ray2 = Ray::new(
        Vec3::from_ints(0, 0, 0),
        Vec3::new(fx(0.2), fx(0.1), fx(-1.0)),
        Fx::zero(),
    );
    let rec2 = s.hit(ray2, t_eps(), Fx::from_int(1000)).expect("must hit");
    let on_surface = rec2.point.sub(Vec3::from_ints(0, 0, -2)).length_squared().raw();
    assert!(
        (on_surface - 65536).abs() < 2048,
        "distance squared raw {}",
        on_surface
    );
    let nlen = rec2.normal.length_squared().raw();
    assert!((nlen - 65536).abs() < 2048, "normal length squared raw {}", nlen);
    assert!(rec2.front_face);
}

#[test]
fn sphere_miss_returns_none() {
    let s = Hittable::Sphere(Sphere::new(Vec3::from_ints(0, 0, -2), Fx::one(), gray()));
    let ray = Ray::new(Vec3::from_ints(0, 3, 0), Vec3::from_ints(0, 0, -1), Fx::zero());
    assert!(s.hit(ray, t_eps(), Fx::from_int(1000)).is_none());
}

#[test]
fn nearest_of_two_spheres_wins() {
    // The scene of a small sphere in front of a large ground sphere: the
    // ray down the axis must report the near sphere at t of one half.
    let mut list = HittableList::new();
    list.add(Hittable::Sphere(Sphere::new(Vec3::from_ints(0, 0, -1), fx(0.5), gray())));
    list.add(Hittable::Sphere(Sphere::new(
        Vec3::new(fx(0.0), fx(-100.5), fx(-1.0)),
        Fx::from_int(100),
        gray(),
    )));
    let world = Hittable::List(list);
    let ray = Ray::new(Vec3::from_ints(0, 0, 0), Vec3::from_ints(0, 0, -1), Fx::zero());
    let rec = world.hit(ray, t_eps(), Fx::from_int(10000)).expect("must hit");
    assert_eq!(rec.t.raw(), 32768);
}

#[test]
fn xy_rect_hit_and_uv() {
    let r = Hittable::XYRect(XYRect::new(
        Fx::zero(),
        Fx::from_int(2),
        Fx::zero(),
        Fx::from_int(2),
        Fx::from_int(-3),
        gray(),
    ));
    let ray = Ray::new(Vec3::from_ints(1, 1, 0), Vec3::from_ints(0, 0, -1), Fx::zero());
    let rec = r.hit(ray, t_eps(), Fx::from_int(1000)).expect("must hit");
    assert_eq!(rec.t.raw(), 3 * 65536);
    assert_eq!(rec.u.raw(), 32768);
    assert_eq!(rec.v.raw(), 32768);
    // A parallel ray never hits.
    let ray2 = Ray::new(Vec3::from_ints(1, 1, 0), Vec3::from_ints(1, 0, 0), Fx::zero());
    assert!(r.hit(ray2, t_eps(), Fx::from_int(1000)).is_none());
}

#[test]
fn triangle_hit_inside_only() {
    let tri = Hittable::Triangle(Triangle::new(
        Vec3::from_ints(0, 0, -2),
        Vec3::from_ints(2, 0, -2),
        Vec3::from_ints(0, 2, -2),
        gray(),
    ));
    let inside = Ray::new(
        Vec3::new(fx(0.5), fx(0.5), fx(0.0)),
        Vec3::from_ints(0, 0, -1),
        Fx::zero(),
    );
    let rec = tri.hit(inside, t_eps(), Fx::from_int(1000)).expect("must hit");
    assert!((rec.t.raw() - 2 * 65536).abs() <= 64, "t raw {}", rec.t.raw());
    let outside = Ray::new(
        Vec3::new(fx(1.8), fx(1.8), fx(0.0)),
        Vec3::from_ints(0, 0, -1),
        Fx::zero(),
    );
    assert!(tri.hit(outside, t_eps(), Fx::from_int(1000)).is_none());
}

#[test]
fn aabb_slab_test_basics() {
    let b = Aabb::new(Vec3::from_ints(-1, -1, -3), Vec3::from_ints(1, 1, -2));
    let toward = Ray::new(Vec3::from_ints(0, 0, 0), Vec3::from_ints(0, 0, -1), Fx::zero());
    assert!(b.hit(toward, Fx::zero(), Fx::from_int(100)));
    let away = Ray::new(Vec3::from_ints(0, 0, 0), Vec3::from_ints(0, 0, 1), Fx::zero());
    assert!(!b.hit(away, Fx::zero(), Fx::from_int(100)));
    let aside = Ray::new(Vec3::from_ints(5, 0, 0), Vec3::from_ints(0, 0, -1), Fx::zero());
    assert!(!b.hit(aside, Fx::zero(), Fx::from_int(100)));
}

#[test]
fn aabb_hit_symmetric_under_axis_swap() {
    // Exchanging the x and y axes of both the box and the ray leaves the
    // slab test unchanged.
    let cases = [
        ((-1i64, -2i64, -3i64), (1i64, 2i64, -2i64), (0i64, 0i64, 0i64), (0i64, 1i64, -3i64)),
        ((0, 0, 0), (2, 1, 1), (3, 3, 3), (-1, -1, -1)),
        ((-5, -5, -5), (5, 5, 5), (0, -9, 0), (0, 1, 0)),
    ];
    for ((ax, ay, az), (bx, by, bz), (ox, oy, oz), (dx, dy, dz)) in cases {
        let b = Aabb::new(Vec3::from_ints(ax, ay, az), Vec3::from_ints(bx, by, bz));
        let bs = Aabb::new(Vec3::from_ints(ay, ax, az), Vec3::from_ints(by, bx, bz));
        let r = Ray::new(Vec3::from_ints(ox, oy, oz), Vec3::from_ints(dx, dy, dz), Fx::zero());
        let rs = Ray::new(Vec3::from_ints(oy, ox, oz), Vec3::from_ints(dy, dx, dz), Fx::zero());
        assert_eq!(
            b.hit(r, Fx::zero(), Fx::from_int(100)),
            bs.hit(rs, Fx::zero(), Fx::from_int(100))
        );
    }
}

#[test]
fn surrounding_box_is_componentwise_hull() {
    let a = Aabb::new(Vec3::from_ints(-1, 0, 0), Vec3::from_ints(1, 2, 3));
    let b = Aabb::new(Vec3::from_ints(0, -5, 1), Vec3::from_ints(4, 1, 2));
    let s = Aabb::surrounding_box(&a, &b);
    assert_eq!(s.min.x.raw(), -65536);
    assert_eq!(s.min.y.raw(), -5 * 65536);
    assert_eq!(s.min.z.raw(), 0);
    assert_eq!(s.max.x.raw(), 4 * 65536);
    assert_eq!(s.max.y.raw(), 2 * 65536);
    assert_eq!(s.max.z.raw(), 3 * 65536);
}

#[test]
fn translate_shifts_hit_point() {
    let s = Hittable::Sphere(Sphere::new(Vec3::from_ints(0, 0, -2), Fx::one(), gray()));
    let t = Hittable::Translate(Translate::new(Box::new(s), Vec3::from_ints(0, 5, 0)));
    let ray = Ray::new(Vec3::from_ints(0, 5, 0), Vec3::from_ints(0, 0, -1), Fx::zero());
    let rec = t.hit(ray, t_eps(), Fx::from_int(1000)).expect("must hit");
    assert_eq!(rec.t.raw(), 65536);
    assert_eq!(rec.point.y.raw(), 5 * 65536);
}

#[test]
fn moving_sphere_interpolates_its_center() {
    let s = MovingSphere::new(
        Vec3::from_ints(0, 0, 0),
        Vec3::from_ints(10, 0, 0),
        Fx::zero(),
        Fx::one(),
        Fx::one(),
        gray(),
    );
    assert_eq!(s.center(Fx::zero()).x.raw(), 0);
    assert_eq!(s.center(Fx::one()).x.raw(), 10 * 65536);
    assert_eq!(s.center(fx(0.5)).x.raw(), 5 * 65536);
    // A ray cast at the late shutter time must meet the moved sphere.
    let moved = Hittable::MovingSphere(s);
    let early = Ray::new(Vec3::from_ints(0, 0, 5), Vec3::from_ints(0, 0, -1), Fx::zero());
    let late = Ray::new(Vec3::from_ints(10, 0, 5), Vec3::from_ints(0, 0, -1), Fx::one());
    assert!(moved.hit(early, t_eps(), Fx::from_int(100)).is_some());
    assert!(moved.hit(late, t_eps(), Fx::from_int(100)).is_some());
    let miss = Ray::new(Vec3::from_ints(10, 0, 5), Vec3::from_ints(0, 0, -1), Fx::zero());
    assert!(moved.hit(miss, t_eps(), Fx::from_int(100)).is_none());
}

#[test]
fn rotate_y_turns_the_object_frame() {
    // A sphere far down the x axis, rotated ninety degrees about y, is
    // found down the negative z axis instead.
    let s = Hittable::Sphere(Sphere::new(Vec3::from_ints(10, 0, 0), Fx::one(), gray()));
    let r = Hittable::RotateY(RotateY::new(Box::new(s), Fx::from_int(90)));
    let toward = Ray::new(Vec3::from_ints(0, 0, 0), Vec3::from_ints(0, 0, -1), Fx::zero());
    let rec = r.hit(toward, t_eps(), Fx::from_int(100)).expect("rotated into view");
    assert!((rec.t.raw() - 9 * 65536).abs() < 4096, "t raw {}", rec.t.raw());
    let along_x = Ray::new(Vec3::from_ints(0, 0, 0), Vec3::from_ints(1, 0, 0), Fx::zero());
    assert!(r.hit(along_x, t_eps(), Fx::from_int(100)).is_none());
}

#[test]
fn list_bounding_box_folds_members() {
    let mut list = HittableList::new();
    list.add(Hittable::Sphere(Sphere::new(Vec3::from_ints(0, 0, 0), Fx::one(), gray())));
    list.add(Hittable::Sphere(Sphere::new(Vec3::from_ints(5, 0, 0), Fx::one(), gray())));
    let world = Hittable::List(list);
    let b = world.bounding_box(Fx::zero(), Fx::one()).expect("boxed");
    assert_eq!(b.min.x.raw(), -65536);
    assert_eq!(b.max.x.raw(), 6 * 65536);
    let empty = Hittable::List(HittableList::new());
    assert!(empty.bounding_box(Fx::zero(), Fx::one()).is_none());
}

#[test]
fn slab_test_rejects_disjoint_axis_windows() {
    // The x slab is crossed during t in [3, 4], the y slab during
    // t in [1, 2]: the shrinking interval empties, so the ray misses.
    let b = Aabb::new(Vec3::from_ints(0, 0, 0), Vec3::from_ints(1, 1, 1));
    let r = Ray::new(Vec3::from_ints(-3, -1, 0), Vec3::from_ints(1, 1, 0), Fx::zero());
    assert!(!b.hit(r, Fx::zero(), Fx::from_int(100)));
    // Shifting the origin so the windows overlap restores the hit.
    let r2 = Ray::new(Vec3::from_ints(-1, -1, 0), Vec3::from_ints(1, 1, 0), Fx::zero());
    assert!(b.hit(r2, Fx::zero(), Fx::from_int(100)));
}

#[test]
fn rect_box_holds_six_faces() {
    let b = RectBox::new(Vec3::from_ints(0, 0, 0), Vec3::from_ints(1, 2, 3), gray());
    assert_eq!(b.sides.objects.len(), 6);
    assert_eq!(b.min.x.raw(), 0);
    assert_eq!(b.max.z.raw(), 3 * 65536);
}
