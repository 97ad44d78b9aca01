use raytracer::hittable::HitRecord;
use raytracer::material::reflect;
use raytracer::material::reflectance;
use raytracer::material::refract;
use raytracer::material::DefaultMaterial;
use raytracer::material::Dielectric;
use raytracer::material::Lambertian;
use raytracer::material::Material;
use raytracer::material::Metal;
use raytracer::material::Surface;
use raytracer::ray::Ray;
use raytracer::scalar::Scalar;
use raytracer::scalar::ONE_RAW;
use raytracer::utils::RandomSource;
use raytracer::vec3::Vec3;

fn m(x: f64) -> Scalar {
    Scalar::from_raw((x * 4294967296.0).round() as i64)
}

fn mf(x: Scalar) -> f64 {
    x.raw() as f64 / 4294967296.0
}

fn mv(x: f64, y: f64, z: f64) -> Vec3 {
    Vec3::new(m(x), m(y), m(z))
}

fn near(a: Vec3, b: Vec3, eps: f64) -> bool {
    (mf(a.x()) - mf(b.x())).abs() <= eps
        && (mf(a.y()) - mf(b.y())).abs() <= eps
        && (mf(a.z()) - mf(b.z())).abs() <= eps
}

fn record(p: Vec3, normal: Vec3, front_face: bool) -> HitRecord {
    let mut rec = HitRecord::new();
    rec.p = p;
    rec.normal = normal;
    rec.front_face = front_face;
    rec.t = m(1.0);
    rec
}

#[test]
fn default_material_absorbs() {
    let mat = DefaultMaterial::new();
    let r = Ray::new(mv(0.0, 0.0, 0.0), mv(0.0, 0.0, -1.0));
    let rec = record(mv(0.0, 0.0, -1.0), mv(0.0, 0.0, 1.0), true);
    let mut rng = RandomSource::Seeded(1);
    assert!(mat.scatter(&r, &rec, &mut rng).is_none());
    assert!(matches!(rng, RandomSource::Seeded(1)));
    assert!(Surface::Default(mat).scatter(&r, &rec, &mut rng).is_none());
}

#[test]
fn reflect_mirrors_at_the_normal() {
    assert_eq!(reflect(mv(1.0, -1.0, 0.0), mv(0.0, 1.0, 0.0)), mv(1.0, 1.0, 0.0));
    assert_eq!(reflect(mv(0.0, -1.0, 0.0), mv(0.0, 1.0, 0.0)), mv(0.0, 1.0, 0.0));
    assert_eq!(reflect(mv(0.5, 0.25, -2.0), mv(0.0, 0.0, 1.0)), mv(0.5, 0.25, 2.0));
    assert_eq!(reflect(mv(1.0, 0.0, 0.0), mv(0.0, 1.0, 0.0)), mv(1.0, 0.0, 0.0));
}

#[test]
fn refract_bends_by_the_ratio() {
    // straight on, the ray goes straight through whatever the ratio
    assert_eq!(refract(mv(0.0, 0.0, -1.0), mv(0.0, 0.0, 1.0), m(0.5)), mv(0.0, 0.0, -1.0));
    assert_eq!(refract(mv(0.0, 0.0, -1.0), mv(0.0, 0.0, 1.0), m(1.0)), mv(0.0, 0.0, -1.0));
    // at 45 degrees into a medium with half the speed the sine halves
    let h = std::f64::consts::FRAC_1_SQRT_2;
    let out = refract(mv(h, 0.0, -h), mv(0.0, 0.0, 1.0), m(0.5));
    let sine = h * 0.5;
    assert!(near(out, mv(sine, 0.0, -(1.0 - sine * sine).sqrt()), 1e-8));
}

#[test]
fn reflectance_follows_schlick() {
    // straight on: ((1 - ratio) / (1 + ratio))^2
    assert!((mf(reflectance(m(1.0), m(0.5))) - 1.0 / 9.0).abs() < 1e-8);
    assert_eq!(reflectance(m(1.0), m(1.0)), m(0.0));
    // grazing: everything is reflected
    assert!((mf(reflectance(m(0.0), m(0.5))) - 1.0).abs() < 1e-8);
    assert_eq!(reflectance(m(0.0), m(1.0)), m(1.0));
    // between: r0 + (1 - r0) (1 - cos)^5
    let r0 = 0.04f64;
    let want = r0 + (1.0 - r0) * 0.5f64.powi(5);
    assert!((mf(reflectance(m(0.5), m(1.0 / 1.5))) - want).abs() < 1e-8);
    assert_eq!(reflectance(m(0.5), m(1.0)), m(0.03125));
}

#[test]
fn lambertian_scatters_along_normal_plus_unit() {
    let mat = Lambertian::new(mv(0.8, 0.3, 0.1));
    let rec = record(mv(1.0, 2.0, 3.0), mv(0.0, 0.0, 1.0), true);
    let s = mat.scatter_along(&rec, mv(0.0, 1.0, 0.0));
    assert_eq!(s.attenuation, mv(0.8, 0.3, 0.1));
    assert_eq!(s.scattered.origin(), mv(1.0, 2.0, 3.0));
    assert_eq!(s.scattered.direction(), mv(0.0, 1.0, 1.0));
}

#[test]
fn lambertian_falls_back_to_the_normal() {
    let mat = Lambertian::new(mv(0.8, 0.3, 0.1));
    let rec = record(mv(1.0, 2.0, 3.0), mv(0.0, 0.0, 1.0), true);
    let s = mat.scatter_along(&rec, mv(0.0, 0.0, -1.0));
    assert_eq!(s.scattered.direction(), mv(0.0, 0.0, 1.0));
    let tiny = Vec3::new(Scalar::from_raw(100), Scalar::from_raw(-100), m(-1.0));
    let t = mat.scatter_along(&rec, tiny);
    assert_eq!(t.scattered.direction(), mv(0.0, 0.0, 1.0));
    let small = Vec3::new(Scalar::from_raw(70000), Scalar::from_raw(0), m(-1.0));
    let u = mat.scatter_along(&rec, small);
    assert_eq!(u.scattered.direction(), Vec3::new(Scalar::from_raw(70000), m(0.0), m(0.0)));
}

#[test]
fn lambertian_scatter_draws_a_unit_vector() {
    let mat = Lambertian::new(mv(0.8, 0.3, 0.1));
    let r = Ray::new(mv(0.0, 0.0, 0.0), mv(0.0, 0.0, -1.0));
    let rec = record(mv(0.0, 0.0, -1.0), mv(0.0, 0.0, 1.0), true);
    let mut rng = RandomSource::Fixed(0xC000_0000);
    let s = mat.scatter(&r, &rec, &mut rng).unwrap();
    let u = mv(0.5, 0.5, 0.5).unit();
    assert_eq!(s, mat.scatter_along(&rec, u));
    assert_eq!(s.scattered.direction(), mv(0.0, 0.0, 1.0).add(u));
    let mut a = RandomSource::Seeded(9);
    let mut b = RandomSource::Seeded(9);
    let x = mat.scatter(&r, &rec, &mut a).unwrap();
    assert_eq!(x, mat.scatter_along(&rec, Vec3::random_unit(&mut b)));
    assert_eq!(Surface::Lambertian(mat).scatter(&r, &rec, &mut RandomSource::Seeded(9)).unwrap(), x);
}

#[test]
fn attenuation_is_never_above_the_albedo() {
    let albedo = mv(0.8, 0.3, 1.0);
    let diffuse = Lambertian::new(albedo);
    let mirror = Metal::new(albedo, m(0.3));
    let r = Ray::new(mv(0.0, 0.0, 0.0), mv(0.3, -0.2, -1.0));
    let rec = record(mv(0.3, -0.2, -1.0), mv(0.0, 0.0, 1.0), true);
    for source in [RandomSource::Thread, RandomSource::Seeded(77), RandomSource::Fixed(0xC000_0000)] {
        let mut rng = source;
        for _ in 0..50 {
            let s = diffuse.scatter(&r, &rec, &mut rng).unwrap();
            assert_eq!(s.attenuation, albedo);
            if let Some(t) = mirror.scatter(&r, &rec, &mut rng) {
                assert_eq!(t.attenuation, albedo);
                assert!(t.attenuation.x().raw() <= albedo.x().raw());
                assert!(t.attenuation.y().raw() <= albedo.y().raw());
                assert!(t.attenuation.z().raw() <= albedo.z().raw());
            }
        }
    }
    let light = mv(0.9, 0.5, 2.0);
    let dimmed = albedo.hadamard(light);
    assert!(0 <= dimmed.x().raw() && dimmed.x().raw() <= light.x().raw());
    assert!(0 <= dimmed.y().raw() && dimmed.y().raw() <= light.y().raw());
    assert!(0 <= dimmed.z().raw() && dimmed.z().raw() <= light.z().raw());
}

#[test]
fn metal_new_brings_fuzz_into_range() {
    assert_eq!(Metal::new(mv(1.0, 1.0, 1.0), m(0.3)).fuzz, m(0.3));
    assert_eq!(Metal::new(mv(1.0, 1.0, 1.0), m(1.0)).fuzz, m(1.0));
    assert_eq!(Metal::new(mv(1.0, 1.0, 1.0), m(0.0)).fuzz, m(0.0));
    assert_eq!(Metal::new(mv(1.0, 1.0, 1.0), m(7.0)).fuzz, m(1.0));
    assert_eq!(Metal::new(mv(1.0, 1.0, 1.0), m(-0.5)).fuzz, m(0.0));
    assert_eq!(Metal::new(mv(0.7, 0.6, 0.5), m(0.0)).albedo, mv(0.7, 0.6, 0.5));
}

#[test]
fn metal_without_fuzz_is_a_mirror() {
    let mat = Metal::new(mv(0.7, 0.6, 0.5), m(0.0));
    let rec = record(mv(0.0, 0.0, 0.0), mv(0.0, 1.0, 0.0), true);
    let straight = Ray::new(mv(0.0, 2.0, 0.0), mv(0.0, -2.0, 0.0));
    let s = mat.scatter_along(&straight, &rec, mv(0.3, 0.4, 0.5)).unwrap();
    assert_eq!(s.attenuation, mv(0.7, 0.6, 0.5));
    assert_eq!(s.scattered.origin(), mv(0.0, 0.0, 0.0));
    assert_eq!(s.scattered.direction(), mv(0.0, 1.0, 0.0));
    let slanted = Ray::new(mv(-3.0, 4.0, 0.0), mv(3.0, -4.0, 0.0));
    let t = mat.scatter_along(&slanted, &rec, mv(0.0, 0.0, 1.0)).unwrap();
    assert!(near(t.scattered.direction(), mv(0.6, 0.8, 0.0), 1e-8));
    let mut rng = RandomSource::Seeded(4);
    let u = mat.scatter(&slanted, &rec, &mut rng).unwrap();
    assert_eq!(u, t);
}

#[test]
fn metal_with_fuzz_adds_the_scaled_unit_vector() {
    let mat = Metal::new(mv(0.7, 0.6, 0.5), m(0.5));
    let rec = record(mv(0.0, 0.0, 0.0), mv(0.0, 1.0, 0.0), true);
    let straight = Ray::new(mv(0.0, 2.0, 0.0), mv(0.0, -2.0, 0.0));
    let s = mat.scatter_along(&straight, &rec, mv(1.0, 0.0, 0.0)).unwrap();
    assert_eq!(s.scattered.direction(), mv(0.5, 1.0, 0.0));
    let mut rng = RandomSource::Fixed(0xC000_0000);
    let t = mat.scatter(&straight, &rec, &mut rng).unwrap();
    assert_eq!(t.scattered.direction(), mv(0.0, 1.0, 0.0).add(mv(0.5, 0.5, 0.5).unit().mul(m(0.5))));
    assert_eq!(Surface::Metal(mat).scatter(&straight, &rec, &mut rng), Some(t));
}

#[test]
fn metal_absorbs_what_points_into_the_surface() {
    let mat = Metal::new(mv(0.7, 0.6, 0.5), m(1.0));
    let rec = record(mv(0.0, 0.0, 0.0), mv(0.0, 1.0, 0.0), true);
    let grazing = Ray::new(mv(-1.0, 0.001, 0.0), mv(1.0, -0.001, 0.0));
    assert!(mat.scatter_along(&grazing, &rec, mv(0.0, -1.0, 0.0)).is_none());
    assert!(mat.scatter_along(&grazing, &rec, mv(0.0, 1.0, 0.0)).is_some());
    // a direction along the surface is absorbed too
    let flat = Metal::new(mv(0.7, 0.6, 0.5), m(0.0));
    let along = Ray::new(mv(-1.0, 0.0, 0.0), mv(1.0, 0.0, 0.0));
    assert!(flat.scatter_along(&along, &rec, mv(0.0, 1.0, 0.0)).is_none());
}

#[test]
fn clear_glass_does_not_bend_the_ray() {
    let glass = Dielectric::new(m(1.0));
    let directions = [
        mv(0.0, 0.0, -1.0),
        mv(0.3, 0.2, -1.0),
        mv(-1.0, 0.5, -1.0),
        mv(2.0, -1.0, -0.5),
        mv(0.0, 3.0, -1.0),
    ];
    let never = Scalar::from_raw(4294967295);
    for d in directions {
        for front_face in [true, false] {
            let r = Ray::new(mv(0.0, 0.0, 1.0), d);
            let rec = record(mv(0.0, 0.0, 0.0), mv(0.0, 0.0, 1.0), front_face);
            assert!(!glass.is_blocked(&r, &rec));
            let s = glass.scatter_given(&r, &rec, never);
            assert_eq!(s.attenuation, mv(1.0, 1.0, 1.0));
            assert_eq!(s.scattered.origin(), mv(0.0, 0.0, 0.0));
            assert!(near(s.scattered.direction(), d.unit(), 1e-4));
        }
    }
    let r = Ray::new(mv(0.0, 0.0, 1.0), mv(0.0, 0.0, -3.0));
    let rec = record(mv(0.0, 0.0, 0.0), mv(0.0, 0.0, 1.0), true);
    assert_eq!(glass.scatter_given(&r, &rec, m(0.0)).scattered.direction(), mv(0.0, 0.0, -1.0));
}

#[test]
fn clear_glass_still_reflects_at_a_grazing_angle() {
    let glass = Dielectric::new(m(1.0));
    let r = Ray::new(mv(-1.0, 0.0, 0.01), mv(1.0, 0.0, -0.01));
    let rec = record(mv(0.0, 0.0, 0.0), mv(0.0, 0.0, 1.0), true);
    assert!(!glass.is_blocked(&r, &rec));
    let s = glass.scatter_given(&r, &rec, m(0.5));
    assert_eq!(s.scattered.direction(), reflect(r.direction().unit(), rec.normal));
    assert!(s.scattered.direction().z().raw() > 0);
}

#[test]
fn glass_reflects_all_light_beyond_the_critical_angle() {
    let glass = Dielectric::new(m(1.5));
    let r = Ray::new(mv(-1.0, 0.0, 0.5), mv(1.0, 0.0, -0.5));
    let inside = record(mv(0.0, 0.0, 0.0), mv(0.0, 0.0, 1.0), false);
    assert!(glass.is_blocked(&r, &inside));
    let s = glass.scatter_given(&r, &inside, Scalar::from_raw(4294967295));
    assert_eq!(s.scattered.direction(), reflect(r.direction().unit(), inside.normal));
    assert_eq!(s.attenuation, mv(1.0, 1.0, 1.0));
    let mut rng = RandomSource::Seeded(5);
    assert_eq!(glass.scatter(&r, &inside, &mut rng), Some(s));
    assert!(matches!(rng, RandomSource::Seeded(5)));
    let outside = record(mv(0.0, 0.0, 0.0), mv(0.0, 0.0, 1.0), true);
    assert!(!glass.is_blocked(&r, &outside));
}

#[test]
fn glass_lets_the_draw_decide() {
    let glass = Dielectric::new(m(1.5));
    let r = Ray::new(mv(0.0, 0.0, 1.0), mv(0.0, 0.0, -1.0));
    let rec = record(mv(0.0, 0.0, 0.0), mv(0.0, 0.0, 1.0), true);
    // straight on, glass reflects about four hundredths of the light
    assert_eq!(glass.scatter_given(&r, &rec, m(0.5)).scattered.direction(), mv(0.0, 0.0, -1.0));
    assert_eq!(glass.scatter_given(&r, &rec, m(0.05)).scattered.direction(), mv(0.0, 0.0, -1.0));
    assert_eq!(glass.scatter_given(&r, &rec, m(0.03)).scattered.direction(), mv(0.0, 0.0, 1.0));
    let mut high = RandomSource::Fixed(0x8000_0000);
    let through = glass.scatter(&r, &rec, &mut high).unwrap();
    assert_eq!(through.scattered.direction(), mv(0.0, 0.0, -1.0));
    let mut low = RandomSource::Fixed(0);
    let back = Surface::Dielectric(glass).scatter(&r, &rec, &mut low).unwrap();
    assert_eq!(back.scattered.direction(), mv(0.0, 0.0, 1.0));
    let mut seeded = RandomSource::Seeded(5);
    glass.scatter(&r, &rec, &mut seeded);
    assert!(!matches!(seeded, RandomSource::Seeded(5)));
}

#[test]
fn glass_bends_toward_the_normal() {
    let glass = Dielectric::new(m(1.5));
    let h = std::f64::consts::FRAC_1_SQRT_2;
    let r = Ray::new(mv(-1.0, 0.0, 1.0), mv(1.0, 0.0, -1.0));
    let rec = record(mv(0.0, 0.0, 0.0), mv(0.0, 0.0, 1.0), true);
    let s = glass.scatter_given(&r, &rec, Scalar::from_raw(4294967295));
    let sine = h / 1.5;
    assert!(near(s.scattered.direction(), mv(sine, 0.0, -(1.0 - sine * sine).sqrt()), 1e-7));
}

#[test]
fn unit_vectors_are_of_length_one_up_to_rounding() {
    let mut rng = RandomSource::Seeded(123);
    for _ in 0..200 {
        let v = Vec3::random_in(m(-3.0), m(3.0), &mut rng);
        if v.dot_square().raw() >= ONE_RAW {
            let off = (v.unit().dot_square().raw() - ONE_RAW).abs();
            assert!(off <= 11, "the squared length is off by {} units", off);
        }
    }
}

#[test]
fn clear_glass_bends_within_the_proved_bound() {
    let glass = Dielectric::new(m(1.0));
    let never = Scalar::from_raw(4294967295);
    let mut rng = RandomSource::Seeded(321);
    let mut tried = 0;
    while tried < 200 {
        let d = Vec3::random_in(m(-2.0), m(2.0), &mut rng);
        let n = Vec3::random_unit(&mut rng);
        if d.dot_square().raw() < ONE_RAW {
            continue;
        }
        let uv = d.unit();
        if uv.neg().dot(&n).raw() < 0 {
            continue;
        }
        tried += 1;
        assert!((uv.dot_square().raw() - ONE_RAW).abs() <= 11);
        let tolerance = (n.dot_square().raw() - ONE_RAW).abs().max(11);
        let square = (ONE_RAW as i128) * (4 * tolerance as i128 + 40);
        let mut slack: i128 = 0;
        while slack * slack < square {
            slack += 1;
        }
        let r = Ray::new(mv(0.0, 0.0, 0.0), d);
        let rec = record(mv(0.0, 0.0, 0.0), n, true);
        assert!(!glass.is_blocked(&r, &rec));
        if reflectance(uv.neg().dot(&n).min(m(1.0)), m(1.0)).raw() > never.raw() {
            continue;
        }
        let out = glass.scatter_given(&r, &rec, never).scattered.direction();
        assert_eq!(out, refract(uv, n, m(1.0)));
        for (a, b) in [(out.x(), uv.x()), (out.y(), uv.y()), (out.z(), uv.z())] {
            assert!(((a.raw() - b.raw()) as i128).abs() <= 2 * slack + 2);
        }
    }
}
