//! The hierarchy, materials, textures, camera and integrator.

use std::sync::Arc;
use raytracer::camera::Camera;
use raytracer::fixed::Fx;
use raytracer::hittable::{
    BVHNode, ConstantMedium, HitRecord, Hittable, HittableList, RectBox, Sphere, XZRect,
};
use raytracer::material::{Dielectric, DiffuseLight, Isotropic, Lambertian, Material, Metal};
use raytracer::perlin::Perlin;
use raytracer::ray::Ray;
use raytracer::render::{ray_color, render_column, sample_to_rgb8};
use raytracer::texture::{CheckerTexture, ImageTexture, NoiseTexture, SolidColor, Texture};
use raytracer::vec3::{Color, Vec3};

fn fx(v: f64) -> Fx {
    Fx::from_raw((v * 65536.0).round() as i64)
}

fn gray() -> Arc<Material> {
    Arc::new(Material::Lambertian(Lambertian::new(Texture::Solid(SolidColor::new(
        Color::new(fx(0.5), fx(0.5), fx(0.5)),
    )))))
}

fn t_eps() -> Fx {
    Fx::from_raw(7)
}

fn some_spheres() -> Vec<(i64, i64, i64, f64)> {
    vec![
        (0, 0, -3, 1.0),
        (2, 1, -5, 0.5),
        (-2, -1, -4, 1.5),
        (1, 3, -8, 2.0),
        (-3, 2, -6, 0.75),
        (4, -2, -7, 1.25),
    ]
}

fn sphere_list() -> HittableList {
    let mut list = HittableList::new();
    for (x, y, z, r) in some_spheres() {
        list.add(Hittable::Sphere(Sphere::new(Vec3::from_ints(x, y, z), fx(r), gray())));
    }
    list
}

fn some_rays() -> Vec<Ray> {
    let mut rays = Vec::new();
    for i in -3..4i64 {
        for j in -3..4i64 {
            rays.push(Ray::new(
                Vec3::from_ints(0, 0, 1),
                Vec3::new(fx(i as f64 * 0.3), fx(j as f64 * 0.3), fx(-1.0)),
                Fx::zero(),
            ));
        }
    }
    rays
}

#[test]
fn bvh_agrees_with_linear_scan() {
    // The nearest hit through the hierarchy must match the brute-force
    // scan of the same primitives, for every ray tried.
    let tree = BVHNode::create(sphere_list(), Fx::zero(), Fx::one());
    let flat = Hittable::List(sphere_list());
    for ray in some_rays() {
        let a = tree.hit(ray, t_eps(), Fx::from_int(10000));
        let b = flat.hit(ray, t_eps(), Fx::from_int(10000));
        match (a, b) {
            (Some(ra), Some(rb)) => assert_eq!(ra.t.raw(), rb.t.raw()),
            (None, None) => {},
            (x, y) => panic!("tree {:?} vs scan {:?}", x.map(|r| r.t.raw()), y.map(|r| r.t.raw())),
        }
    }
}

#[test]
fn bvh_root_box_ignores_input_order() {
    // Building over any permutation of the same primitives yields the
    // same root bounding box, though the tree shape may differ.
    let tree1 = BVHNode::create(sphere_list(), Fx::zero(), Fx::one());
    let mut rev = HittableList::new();
    for (x, y, z, r) in some_spheres().into_iter().rev() {
        rev.add(Hittable::Sphere(Sphere::new(Vec3::from_ints(x, y, z), fx(r), gray())));
    }
    let tree2 = BVHNode::create(rev, Fx::zero(), Fx::one());
    let b1 = tree1.bounding_box(Fx::zero(), Fx::one()).expect("boxed");
    let b2 = tree2.bounding_box(Fx::zero(), Fx::one()).expect("boxed");
    assert_eq!(b1.min.x.raw(), b2.min.x.raw());
    assert_eq!(b1.min.y.raw(), b2.min.y.raw());
    assert_eq!(b1.min.z.raw(), b2.min.z.raw());
    assert_eq!(b1.max.x.raw(), b2.max.x.raw());
    assert_eq!(b1.max.y.raw(), b2.max.y.raw());
    assert_eq!(b1.max.z.raw(), b2.max.z.raw());
}

#[test]
fn diffuse_light_never_scatters_and_emits_its_texture() {
    let light = Material::DiffuseLight(DiffuseLight::new(Texture::Solid(SolidColor::new(
        Color::new(fx(4.0), fx(3.0), fx(2.0)),
    ))));
    let ray = Ray::new(Vec3::from_ints(0, 0, 0), Vec3::from_ints(0, 0, -1), Fx::zero());
    let rec = HitRecord::new(
        Vec3::from_ints(0, 0, -1),
        Fx::one(),
        fx(0.3),
        fx(0.7),
        Vec3::from_ints(0, 0, 1),
        &light,
        ray,
    );
    for _ in 0..5 {
        assert!(light.scatter(&ray, &rec).is_none());
    }
    for (u, v) in [(0.0, 0.0), (0.3, 0.7), (1.0, 1.0)] {
        let e = light.emitted(fx(u), fx(v), Vec3::from_ints(7, -2, 3));
        assert_eq!(e.x.raw(), 4 * 65536);
        assert_eq!(e.y.raw(), 3 * 65536);
        assert_eq!(e.z.raw(), 2 * 65536);
    }
}

#[test]
fn lambertian_scatters_from_hit_point() {
    let mat = gray();
    let ray = Ray::new(Vec3::from_ints(0, 0, 0), Vec3::from_ints(0, 0, -1), Fx::zero());
    let rec = HitRecord::new(
        Vec3::from_ints(0, 0, -1),
        Fx::one(),
        Fx::zero(),
        Fx::zero(),
        Vec3::from_ints(0, 0, 1),
        &mat,
        ray,
    );
    let (att, scattered) = mat.scatter(&ray, &rec).expect("always scatters");
    assert_eq!(att.x.raw(), 32768);
    assert_eq!(scattered.origin.z.raw(), -65536);
    // The scatter direction leans along the normal: z must not point away.
    assert!(scattered.direction.z.raw() >= -65536);
}

#[test]
fn metal_absorbs_grazing_reflections() {
    let mat = Material::Metal(Metal::new(Color::new(fx(0.9), fx(0.9), fx(0.9)), Fx::zero()));
    let ray = Ray::new(Vec3::from_ints(0, 1, 0), Vec3::from_ints(1, -1, 0), Fx::zero());
    let rec = HitRecord::new(
        Vec3::from_ints(1, 0, 0),
        Fx::one(),
        Fx::zero(),
        Fx::zero(),
        Vec3::from_ints(0, 1, 0),
        &mat,
        ray,
    );
    let (att, scattered) = mat.scatter(&ray, &rec).expect("reflection leaves the surface");
    assert_eq!(att.x.raw(), fx(0.9).raw());
    assert!(scattered.direction.y.raw() > 0);
}

#[test]
fn dielectric_with_unit_index_passes_rays_through() {
    // At a refractive index of one and normal incidence the reflectance
    // is zero and refraction leaves the ray unchanged.
    let mat = Material::Dielectric(Dielectric::new(Fx::one()));
    let ray = Ray::new(Vec3::from_ints(0, 1, 0), Vec3::from_ints(0, -1, 0), Fx::zero());
    let rec = HitRecord::new(
        Vec3::from_ints(0, 0, 0),
        Fx::one(),
        Fx::zero(),
        Fx::zero(),
        Vec3::from_ints(0, 1, 0),
        &mat,
        ray,
    );
    for _ in 0..5 {
        let (att, scattered) = mat.scatter(&ray, &rec).expect("always scatters");
        assert_eq!(att.x.raw(), 65536);
        assert_eq!(scattered.direction.x.raw(), 0);
        assert_eq!(scattered.direction.y.raw(), -65536);
        assert_eq!(scattered.direction.z.raw(), 0);
    }
    // At oblique incidence the refracted ray stays collinear with the
    // incoming direction, within fixed-point tolerance.
    let oblique = Ray::new(
        Vec3::from_ints(0, 1, 0),
        Vec3::new(fx(0.6), fx(-0.8), fx(0.0)),
        Fx::zero(),
    );
    let rec2 = HitRecord::new(
        Vec3::from_ints(0, 0, 0),
        Fx::one(),
        Fx::zero(),
        Fx::zero(),
        Vec3::from_ints(0, 1, 0),
        &mat,
        oblique,
    );
    let mut refracted = 0;
    for _ in 0..10 {
        let (_, scattered) = mat.scatter(&oblique, &rec2).expect("always scatters");
        if scattered.direction.y.raw() < 0 {
            refracted += 1;
            assert!((scattered.direction.x.raw() - fx(0.6).raw()).abs() < 1024);
            assert!((scattered.direction.y.raw() - fx(-0.8).raw()).abs() < 1024);
            assert!(scattered.direction.z.raw().abs() < 1024);
        }
    }
    assert!(refracted >= 1);
}

#[test]
fn schlick_reflectance_endpoints() {
    // At normal incidence with matched media the reflectance vanishes.
    assert_eq!(Dielectric::reflectance(Fx::one(), Fx::one()).raw(), 0);
    // At grazing incidence it rises toward one.
    let g = Dielectric::reflectance(Fx::zero(), fx(1.5)).raw();
    assert!(g > 60000, "grazing reflectance raw {}", g);
}

#[test]
fn ray_color_depth_zero_is_black() {
    let world = Hittable::List(sphere_list());
    let bg = Texture::Solid(SolidColor::new(Color::new(fx(0.7), fx(0.8), fx(1.0))));
    let ray = Ray::new(Vec3::from_ints(0, 0, 0), Vec3::from_ints(0, 0, -1), Fx::zero());
    let c = ray_color(ray, &bg, &world, 0);
    assert_eq!(c.x.raw(), 0);
    assert_eq!(c.y.raw(), 0);
    assert_eq!(c.z.raw(), 0);
}

#[test]
fn ray_color_miss_returns_background() {
    let world = Hittable::List(sphere_list());
    let bg = Texture::Solid(SolidColor::new(Color::new(fx(0.7), fx(0.8), fx(1.0))));
    let ray = Ray::new(Vec3::from_ints(0, 0, 0), Vec3::from_ints(0, 0, 1), Fx::zero());
    let c = ray_color(ray, &bg, &world, 10);
    assert_eq!(c.x.raw(), fx(0.7).raw());
    assert_eq!(c.y.raw(), fx(0.8).raw());
    assert_eq!(c.z.raw(), fx(1.0).raw());
}

#[test]
fn constant_medium_thin_fog_rarely_hits() {
    // Density near zero gives a free path far longer than the sphere, so
    // rays pass through with near-zero hit probability.
    let boundary = Hittable::Sphere(Sphere::new(Vec3::from_ints(0, 0, -3), Fx::one(), gray()));
    let fog = Hittable::ConstantMedium(ConstantMedium::new(
        Box::new(boundary),
        Fx::from_raw(7),
        gray(),
    ));
    let ray = Ray::new(Vec3::from_ints(0, 0, 0), Vec3::from_ints(0, 0, -1), Fx::zero());
    let mut hits = 0;
    for _ in 0..10 {
        if fog.hit(ray, t_eps(), Fx::from_int(1000)).is_some() {
            hits += 1;
        }
    }
    assert!(hits <= 1, "thin fog hit {} of 10 rays", hits);
}

#[test]
fn checker_texture_alternates() {
    let checker = Texture::Checker(CheckerTexture::new(
        Texture::Solid(SolidColor::new(Color::new(fx(1.0), fx(1.0), fx(1.0)))),
        Texture::Solid(SolidColor::new(Color::new(fx(0.0), fx(0.0), fx(0.0)))),
    ));
    // sin(10 * 0.15) > 0 on all axes picks the even texture; flipping the
    // sign of one coordinate picks the odd one.
    let a = checker.value(Fx::zero(), Fx::zero(), Vec3::new(fx(0.15), fx(0.15), fx(0.15)));
    let b = checker.value(Fx::zero(), Fx::zero(), Vec3::new(fx(-0.15), fx(0.15), fx(0.15)));
    assert_eq!(a.x.raw(), 65536);
    assert_eq!(b.x.raw(), 0);
}

#[test]
fn image_texture_nearest_lookup() {
    // A two-pixel image: red then green.
    let data = vec![255u8, 0, 0, 0, 255, 0];
    let img = Texture::Image(ImageTexture::new(data, 2, 1));
    let left = img.value(fx(0.1), fx(0.0), Vec3::from_ints(0, 0, 0));
    assert_eq!(left.x.raw(), 65536);
    assert_eq!(left.y.raw(), 0);
    let right = img.value(fx(0.9), fx(0.0), Vec3::from_ints(0, 0, 0));
    assert_eq!(right.x.raw(), 0);
    assert_eq!(right.y.raw(), 65536);
}

#[test]
fn noise_texture_is_deterministic_per_instance() {
    let noise = NoiseTexture::new(fx(2.0));
    let t = Texture::Noise(noise);
    let p = Vec3::new(fx(1.3), fx(-2.7), fx(0.4));
    let a = t.value(Fx::zero(), Fx::zero(), p);
    let b = t.value(Fx::zero(), Fx::zero(), p);
    assert_eq!(a.x.raw(), b.x.raw());
    assert_eq!(a.x.raw(), a.y.raw());
    assert!(a.x.raw() >= 0, "turbulence is a magnitude");
}

#[test]
fn perlin_noise_stays_bounded() {
    let p = Perlin::new();
    for i in -5..5i64 {
        let v = p.noise(Vec3::new(fx(i as f64 * 0.37), fx(0.2), fx(-0.9))).raw();
        assert!(v.abs() < 4 * 65536, "noise raw {}", v);
    }
}

#[test]
fn camera_ray_times_stay_in_shutter() {
    let cam = Camera::new(
        (Vec3::from_ints(0, 0, 0), Vec3::from_ints(0, 0, -1)),
        Vec3::from_ints(0, 1, 0),
        Fx::from_int(90),
        fx(1.5),
        Fx::zero(),
        Fx::from_int(10),
        (Fx::zero(), Fx::one()),
    );
    for _ in 0..20 {
        let r = cam.get_ray(fx(0.5), fx(0.5));
        assert!(r.time.raw() >= 0 && r.time.raw() <= 65536);
        // With a closed aperture every ray starts at the eye.
        assert_eq!(r.origin.x.raw(), 0);
        assert_eq!(r.origin.y.raw(), 0);
        assert_eq!(r.origin.z.raw(), 0);
    }
}

#[test]
fn render_column_yields_one_pixel_per_row() {
    let world = Hittable::List(sphere_list());
    let bg = Texture::Solid(SolidColor::new(Color::new(fx(0.7), fx(0.8), fx(1.0))));
    let cam = Camera::new(
        (Vec3::from_ints(0, 0, 1), Vec3::from_ints(0, 0, -3)),
        Vec3::from_ints(0, 1, 0),
        Fx::from_int(60),
        fx(1.5),
        Fx::zero(),
        Fx::from_int(4),
        (Fx::zero(), Fx::one()),
    );
    let col = render_column(&world, &bg, &cam, 3, 8, 6, 2, 4);
    assert_eq!(col.len(), 6);
}

#[test]
fn rgb8_folding_gamma_and_clamp() {
    assert_eq!(sample_to_rgb8(Color::new(Fx::one(), Fx::one(), Fx::one()), 1), (255, 255, 255));
    assert_eq!(sample_to_rgb8(Vec3::zero(), 1), (0, 0, 0));
    // Four samples of full white average to full white.
    assert_eq!(
        sample_to_rgb8(Color::new(Fx::from_int(4), Fx::from_int(4), Fx::from_int(4)), 4),
        (255, 255, 255)
    );
    // A quarter intensity gamma-corrects to half: 127 or 128.
    let (r, _, _) = sample_to_rgb8(Color::new(fx(0.25), fx(0.25), fx(0.25)), 1);
    assert!(r == 127 || r == 128, "gamma of 0.25 gave {}", r);
}

#[test]
fn rect_box_is_hit_from_every_side() {
    let b = Hittable::RectBox(RectBox::new(
        Vec3::from_ints(-1, -1, -4),
        Vec3::from_ints(1, 1, -2),
        gray(),
    ));
    let front = Ray::new(Vec3::from_ints(0, 0, 0), Vec3::from_ints(0, 0, -1), Fx::zero());
    assert_eq!(b.hit(front, t_eps(), Fx::from_int(100)).expect("front").t.raw(), 2 * 65536);
    let side = Ray::new(Vec3::from_ints(-5, 0, -3), Vec3::from_ints(1, 0, 0), Fx::zero());
    assert_eq!(b.hit(side, t_eps(), Fx::from_int(100)).expect("side").t.raw(), 4 * 65536);
    let above = Ray::new(Vec3::from_ints(0, 5, -3), Vec3::from_ints(0, -1, 0), Fx::zero());
    assert_eq!(b.hit(above, t_eps(), Fx::from_int(100)).expect("above").t.raw(), 4 * 65536);
}

#[test]
fn xz_rect_light_panel_geometry() {
    let light = Arc::new(Material::DiffuseLight(DiffuseLight::new(Texture::Solid(
        SolidColor::new(Color::new(fx(4.0), fx(4.0), fx(4.0))),
    ))));
    let panel = Hittable::XZRect(XZRect::new(
        Fx::from_int(-1),
        Fx::one(),
        Fx::from_int(-1),
        Fx::one(),
        Fx::from_int(5),
        light,
    ));
    let up = Ray::new(Vec3::from_ints(0, 0, 0), Vec3::from_ints(0, 1, 0), Fx::zero());
    let rec = panel.hit(up, t_eps(), Fx::from_int(100)).expect("hit the panel");
    assert_eq!(rec.t.raw(), 5 * 65536);
    assert!(!rec.front_face);
}

#[test]
fn isotropic_scatters_in_some_direction() {
    let mat = Material::Isotropic(Isotropic::new(Texture::Solid(SolidColor::new(Color::new(
        fx(0.2), fx(0.4), fx(0.9),
    )))));
    let ray = Ray::new(Vec3::from_ints(0, 0, 0), Vec3::from_ints(0, 0, -1), Fx::zero());
    let rec = HitRecord::new(
        Vec3::from_ints(0, 0, -1),
        Fx::one(),
        Fx::zero(),
        Fx::zero(),
        Vec3::from_ints(1, 0, 0),
        &mat,
        ray,
    );
    for _ in 0..5 {
        let (att, scattered) = mat.scatter(&ray, &rec).expect("always scatters");
        assert_eq!(att.z.raw(), fx(0.9).raw());
        assert_eq!(scattered.origin.z.raw(), -65536);
        // The drawn direction lies inside the unit ball.
        assert!(scattered.direction.length_squared().raw() < 65536);
    }
}

#[test]
fn constant_medium_dense_fog_always_hits() {
    // A very dense medium stops a ray crossing two units of it almost
    // surely, and the hit stays inside the crossing interval.
    let boundary = Hittable::Sphere(Sphere::new(Vec3::from_ints(0, 0, -3), Fx::one(), gray()));
    let fog = Hittable::ConstantMedium(ConstantMedium::new(
        Box::new(boundary),
        Fx::from_int(1000),
        gray(),
    ));
    let ray = Ray::new(Vec3::from_ints(0, 0, 0), Vec3::from_ints(0, 0, -1), Fx::zero());
    let mut hits = 0;
    for _ in 0..10 {
        if let Some(rec) = fog.hit(ray, t_eps(), Fx::from_int(1000)) {
            hits += 1;
            assert!(rec.t.raw() >= 2 * 65536 - 256 && rec.t.raw() <= 4 * 65536 + 256);
        }
    }
    assert!(hits >= 9, "dense fog let {} of 10 rays through", 10 - hits);
}

#[test]
fn bvh_node_prefers_left_child_on_ties() {
    // Two concentric-surface spheres meet the axial ray at the same
    // parameter; the node must hand back the left subtree's record.
    let red = Arc::new(Material::DiffuseLight(DiffuseLight::new(Texture::Solid(
        SolidColor::new(Color::new(fx(1.0), fx(0.0), fx(0.0))),
    ))));
    let blue = Arc::new(Material::DiffuseLight(DiffuseLight::new(Texture::Solid(
        SolidColor::new(Color::new(fx(0.0), fx(0.0), fx(1.0))),
    ))));
    let left = Hittable::Sphere(Sphere::new(Vec3::from_ints(0, 0, -3), Fx::one(), red));
    let right = Hittable::Sphere(Sphere::new(Vec3::from_ints(0, 0, -4), fx(2.0), blue));
    let lb = left.bounding_box(Fx::zero(), Fx::one()).expect("boxed");
    let rb = right.bounding_box(Fx::zero(), Fx::one()).expect("boxed");
    let node = Hittable::Bvh(raytracer::hittable::BVHNode {
        left: Box::new(left),
        right: Box::new(right),
        bounding_box: raytracer::Aabb::surrounding_box(&lb, &rb),
    });
    let ray = Ray::new(Vec3::from_ints(0, 0, 0), Vec3::from_ints(0, 0, -1), Fx::zero());
    let rec = node.hit(ray, t_eps(), Fx::from_int(100)).expect("must hit");
    assert_eq!(rec.t.raw(), 2 * 65536);
    let e = rec.material.emitted(Fx::zero(), Fx::zero(), rec.point);
    assert_eq!(e.x.raw(), 65536, "the left subtree's light must answer");
    assert_eq!(e.z.raw(), 0);
}

#[test]
fn perlin_tables_are_permutations() {
    let p = Perlin::new();
    for table in [&p.perm_x, &p.perm_y, &p.perm_z] {
        let mut seen = [false; 256];
        for &v in table.iter() {
            assert!(!seen[v as usize], "index {} repeated", v);
            seen[v as usize] = true;
        }
        assert!(seen.iter().all(|&b| b));
    }
    for v in p.ranvec.iter() {
        assert!(v.x.raw().abs() <= 65536);
        assert!(v.y.raw().abs() <= 65536);
        assert!(v.z.raw().abs() <= 65536);
    }
}
