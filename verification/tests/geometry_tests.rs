use raytracer::hittable::HitRecord;
use raytracer::hittable::Hittable;
use raytracer::hittable_list::HittableList;
use raytracer::interval::Interval;
use raytracer::material::DefaultMaterial;
use raytracer::material::Lambertian;
use raytracer::material::Surface;
use raytracer::ray::Ray;
use raytracer::scalar::Scalar;
use raytracer::scalar::ONE_RAW;
use raytracer::sphere::Sphere;
use raytracer::utils::RandomSource;
use raytracer::vec3::Vec3;

fn g(x: f64) -> Scalar {
    Scalar::from_raw((x * 4294967296.0).round() as i64)
}

fn gf(x: Scalar) -> f64 {
    x.raw() as f64 / 4294967296.0
}

fn gv(x: f64, y: f64, z: f64) -> Vec3 {
    Vec3::new(g(x), g(y), g(z))
}

fn close(a: Vec3, b: Vec3, eps: f64) -> bool {
    (gf(a.x()) - gf(b.x())).abs() <= eps
        && (gf(a.y()) - gf(b.y())).abs() <= eps
        && (gf(a.z()) - gf(b.z())).abs() <= eps
}

fn gray() -> Surface {
    Surface::Lambertian(Lambertian::new(gv(0.5, 0.5, 0.5)))
}

fn forward() -> Interval {
    Interval::new(Scalar::from_ratio(1, 10000), Scalar::infinity())
}

#[test]
fn vec3_constructors_and_getters() {
    assert_eq!(Vec3::zero(), gv(0.0, 0.0, 0.0));
    assert_eq!(Vec3::same(g(2.5)), gv(2.5, 2.5, 2.5));
    let v = gv(1.0, -2.0, 3.5);
    assert_eq!(v.x(), g(1.0));
    assert_eq!(v.y(), g(-2.0));
    assert_eq!(v.z(), g(3.5));
}

#[test]
fn vec3_arithmetic() {
    let a = gv(1.0, 2.0, 3.0);
    let b = gv(-4.0, 0.5, 2.0);
    assert_eq!(a.add(b), gv(-3.0, 2.5, 5.0));
    assert_eq!(a.sub(b), gv(5.0, 1.5, 1.0));
    assert_eq!(a.neg(), gv(-1.0, -2.0, -3.0));
    assert_eq!(a.mul(g(2.0)), gv(2.0, 4.0, 6.0));
    assert_eq!(a.div(g(2.0)), gv(0.5, 1.0, 1.5));
    assert_eq!(a.hadamard(b), gv(-4.0, 1.0, 6.0));
    let mut c = a;
    c.add_assign(b);
    assert_eq!(c, gv(-3.0, 2.5, 5.0));
}

#[test]
fn vec3_products_and_length() {
    let a = gv(1.0, 2.0, 3.0);
    let b = gv(-4.0, 0.5, 2.0);
    assert_eq!(a.dot(&b), g(3.0));
    assert_eq!(a.dot_square(), g(14.0));
    assert_eq!(gv(3.0, 4.0, 0.0).length(), g(5.0));
    assert_eq!(gv(1.0, 0.0, 0.0).cross(&gv(0.0, 1.0, 0.0)), gv(0.0, 0.0, 1.0));
    assert_eq!(a.cross(&b), gv(2.5, -14.0, 8.5));
    assert_eq!(gv(0.0, 0.0, -4.0).unit(), gv(0.0, 0.0, -1.0));
    assert_eq!(gv(3.0, 4.0, 0.0).unit(), Vec3::new(Scalar::from_ratio(3, 5), Scalar::from_ratio(4, 5), g(0.0)));
}

#[test]
fn vec3_random_draws_three_numbers() {
    let mut rng = RandomSource::Fixed(0xC000_0000);
    assert_eq!(Vec3::random(&mut rng), gv(0.75, 0.75, 0.75));
    assert_eq!(Vec3::random_in(g(-1.0), g(1.0), &mut rng), gv(0.5, 0.5, 0.5));
    let mut thread = RandomSource::Thread;
    for _ in 0..32 {
        let v = Vec3::random_in(g(2.0), g(3.0), &mut thread);
        for c in [v.x(), v.y(), v.z()] {
            assert!(g(2.0).raw() <= c.raw() && c.raw() < g(3.0).raw());
        }
    }
}

#[test]
fn random_unit_has_length_one() {
    let mut rng = RandomSource::Seeded(7);
    for _ in 0..200 {
        let u = Vec3::random_unit(&mut rng);
        assert!((gf(u.length()) - 1.0).abs() < 1e-6);
    }
    let mut thread = RandomSource::Thread;
    for _ in 0..200 {
        let u = Vec3::random_unit(&mut thread);
        assert!((gf(u.length()) - 1.0).abs() < 1e-6);
    }
}

#[test]
fn random_unit_of_a_fixed_source() {
    let mut rng = RandomSource::Fixed(0xC000_0000);
    let u = Vec3::random_unit(&mut rng);
    assert_eq!(u, gv(0.5, 0.5, 0.5).unit());
    assert!(close(u, gv(0.57735026919, 0.57735026919, 0.57735026919), 1e-8));
    // every point of this source is the cube's center, which is rejected
    let mut middle = RandomSource::Fixed(0x8000_0000);
    assert_eq!(Vec3::random_unit(&mut middle), gv(1.0, 0.0, 0.0));
    // every point of this source lies outside the sphere
    let mut corner = RandomSource::Fixed(0);
    assert_eq!(Vec3::random_unit(&mut corner), gv(1.0, 0.0, 0.0));
}

#[test]
fn random_on_hemi_points_to_the_normal_side() {
    let mut rng = RandomSource::Seeded(11);
    let normal = gv(0.0, -1.0, 0.0);
    for _ in 0..200 {
        let u = Vec3::random_on_hemi(&normal, &mut rng);
        assert!(u.dot(&normal).raw() >= 0);
        assert!((gf(u.length()) - 1.0).abs() < 1e-6);
    }
    let mut fixed = RandomSource::Fixed(0xC000_0000);
    assert_eq!(Vec3::random_on_hemi(&normal, &mut fixed), gv(0.5, 0.5, 0.5).unit().neg());
}

#[test]
fn random_in_unit_disk_stays_inside() {
    let mut rng = RandomSource::Seeded(3);
    for _ in 0..200 {
        let p = Vec3::random_in_unit_disk(&mut rng);
        assert_eq!(p.z(), g(0.0));
        assert!(p.dot_square().raw() < ONE_RAW);
    }
    let mut fixed = RandomSource::Fixed(0xC000_0000);
    assert_eq!(Vec3::random_in_unit_disk(&mut fixed), gv(0.5, 0.5, 0.0));
    let mut corner = RandomSource::Fixed(0);
    assert_eq!(Vec3::random_in_unit_disk(&mut corner), gv(0.0, 0.0, 0.0));
}

#[test]
fn ray_at_follows_the_line() {
    let r = Ray::new(gv(1.0, 2.0, 3.0), gv(0.5, -1.0, 2.0));
    assert_eq!(r.origin(), gv(1.0, 2.0, 3.0));
    assert_eq!(r.direction(), gv(0.5, -1.0, 2.0));
    assert_eq!(r.at(g(0.0)), gv(1.0, 2.0, 3.0));
    assert_eq!(r.at(g(2.0)), gv(2.0, 0.0, 7.0));
    assert_eq!(r.at(g(-1.0)), gv(0.5, 3.0, 1.0));
}

#[test]
fn hit_record_starts_blank() {
    let rec = HitRecord::new();
    assert_eq!(rec.p, Vec3::zero());
    assert_eq!(rec.normal, Vec3::zero());
    assert_eq!(rec.t, Scalar::zero());
    assert!(!rec.front_face);
    assert_eq!(rec.mat, Surface::Default(DefaultMaterial::new()));
}

#[test]
fn set_face_normal_turns_the_normal_against_the_ray() {
    let r = Ray::new(gv(0.0, 0.0, 0.0), gv(0.0, 0.0, -1.0));
    let mut rec = HitRecord::new();
    rec.set_face_normal(&r, &gv(0.0, 0.0, 1.0));
    assert!(rec.front_face);
    assert_eq!(rec.normal, gv(0.0, 0.0, 1.0));
    rec.set_face_normal(&r, &gv(0.0, 0.0, -1.0));
    assert!(!rec.front_face);
    assert_eq!(rec.normal, gv(0.0, 0.0, 1.0));
    // a ray along the surface counts as coming from inside
    rec.set_face_normal(&r, &gv(0.0, 1.0, 0.0));
    assert!(!rec.front_face);
    assert_eq!(rec.normal, gv(0.0, -1.0, 0.0));
}

#[test]
fn sphere_hit_from_outside() {
    let s = Sphere::new(gv(0.0, 0.0, -1.0), g(0.5), gray());
    let r = Ray::new(gv(0.0, 0.0, 0.0), gv(0.0, 0.0, -1.0));
    let h = s.hit(&r, forward()).unwrap();
    assert_eq!(h.t, g(0.5));
    assert_eq!(h.p, gv(0.0, 0.0, -0.5));
    assert_eq!(h.normal, gv(0.0, 0.0, 1.0));
    assert!(h.front_face);
    assert_eq!(h.mat, gray());
}

#[test]
fn sphere_hit_with_a_long_direction() {
    let s = Sphere::new(gv(0.0, 0.0, -1.0), g(0.5), gray());
    let r = Ray::new(gv(0.0, 0.0, 0.0), gv(0.0, 0.0, -2.0));
    let h = s.hit(&r, forward()).unwrap();
    assert_eq!(h.t, g(0.25));
    assert_eq!(h.p, gv(0.0, 0.0, -0.5));
    assert_eq!(h.normal, gv(0.0, 0.0, 1.0));
}

#[test]
fn sphere_hit_from_inside_takes_the_far_root() {
    let s = Sphere::new(gv(0.0, 0.0, -1.0), g(0.5), gray());
    let r = Ray::new(gv(0.0, 0.0, -1.0), gv(0.0, 0.0, -1.0));
    let h = s.hit(&r, forward()).unwrap();
    assert_eq!(h.t, g(0.5));
    assert_eq!(h.p, gv(0.0, 0.0, -1.5));
    assert_eq!(h.normal, gv(0.0, 0.0, 1.0));
    assert!(!h.front_face);
}

#[test]
fn sphere_hit_respects_the_range() {
    let s = Sphere::new(gv(0.0, 0.0, -1.0), g(0.5), gray());
    let r = Ray::new(gv(0.0, 0.0, 0.0), gv(0.0, 0.0, -1.0));
    // the near root lies at 0.5 and the far one at 1.5
    assert_eq!(s.hit(&r, Interval::new(g(0.5), g(0.5))).unwrap().t, g(0.5));
    assert_eq!(s.hit(&r, Interval::new(g(0.6), g(2.0))).unwrap().t, g(1.5));
    assert_eq!(s.hit(&r, Interval::new(g(1.5), g(1.5))).unwrap().t, g(1.5));
    assert!(s.hit(&r, Interval::new(g(0.6), g(1.4))).is_none());
    assert!(s.hit(&r, Interval::new(g(1.6), g(100.0))).is_none());
    assert!(s.hit(&r, Interval::new(g(0.0), g(0.4))).is_none());
    assert!(s.hit(&r, Interval::empty()).is_none());
    assert_eq!(s.hit(&r, Interval::full()).unwrap().t, g(0.5));
}

#[test]
fn sphere_missed_by_the_ray() {
    let s = Sphere::new(gv(0.0, 0.0, -1.0), g(0.5), gray());
    assert!(s.hit(&Ray::new(gv(0.0, 0.0, 0.0), gv(0.0, 1.0, 0.0)), forward()).is_none());
    assert!(s.hit(&Ray::new(gv(0.0, 0.0, 0.0), gv(0.0, 0.0, 1.0)), forward()).is_none());
    assert!(s.hit(&Ray::new(gv(0.0, 1.0, 0.0), gv(0.0, 0.0, -1.0)), forward()).is_none());
}

#[test]
fn sphere_with_negative_radius_is_inside_out() {
    let s = Sphere::new(gv(0.0, 0.0, -1.0), g(-0.5), gray());
    let r = Ray::new(gv(0.0, 0.0, 0.0), gv(0.0, 0.0, -1.0));
    let h = s.hit(&r, forward()).unwrap();
    assert_eq!(h.t, g(0.5));
    assert_eq!(h.p, gv(0.0, 0.0, -0.5));
    assert!(!h.front_face);
    assert_eq!(h.normal, gv(0.0, 0.0, 1.0));
}

#[test]
fn ray_leaving_the_surface_does_not_hit_it() {
    let s = Sphere::new(gv(1.0, 2.0, 3.0), g(2.0), gray());
    for d in [gv(0.0, 0.0, 1.0), gv(0.5, 0.25, 1.0), gv(-3.0, 2.0, 0.125), gv(0.0, 0.0, 100.0)] {
        let r = Ray::new(gv(1.0, 2.0, 5.0), d);
        assert_eq!(r.origin().sub(s.center).dot_square(), s.radius.mul(s.radius));
        assert!(r.origin().sub(s.center).dot(&d).raw() > 0);
        assert!(s.hit(&r, forward()).is_none());
        assert!(s.hit(&r, Interval::new(Scalar::from_raw(1), Scalar::infinity())).is_none());
    }
    // without the lower bound the ray hits where it starts
    let r = Ray::new(gv(1.0, 2.0, 5.0), gv(0.0, 0.0, 1.0));
    assert_eq!(s.hit(&r, Interval::new(g(0.0), Scalar::infinity())).unwrap().t, g(0.0));
}

#[test]
fn sphere_hit_moves_with_the_scene() {
    let s = Sphere::new(gv(0.25, -0.5, -3.0), g(1.25), gray());
    let rays = [
        Ray::new(gv(0.0, 0.0, 0.0), gv(0.125, -0.25, -1.0)),
        Ray::new(gv(0.0, 0.0, 0.0), gv(0.3, 0.1, -1.7)),
        Ray::new(gv(0.25, -0.5, -3.0), gv(1.0, 1.0, 1.0)),
        Ray::new(gv(0.0, 0.0, 0.0), gv(0.0, 1.0, 0.0)),
    ];
    let shifts = [gv(10.0, -20.0, 30.0), gv(0.3, 0.7, -0.9), gv(-1000.5, 0.0, 2000.25)];
    for r in rays {
        let here = s.hit(&r, forward());
        for v in shifts {
            let moved = Sphere::new(s.center.add(v), s.radius, s.mat);
            let there = moved.hit(&Ray::new(r.origin().add(v), r.direction()), forward());
            match (here, there) {
                (Some(a), Some(b)) => {
                    assert_eq!(b.t, a.t);
                    assert_eq!(b.p, a.p.add(v));
                    assert_eq!(b.normal, a.normal);
                    assert_eq!(b.front_face, a.front_face);
                    assert_eq!(b.mat, a.mat);
                }
                (None, None) => {}
                _ => panic!("the move changed whether the ray hits"),
            }
        }
    }
}

#[test]
fn list_starts_empty_and_grows() {
    let mut world = HittableList::new();
    assert_eq!(world.objects.len(), 0);
    world.add(Sphere::new(gv(0.0, 0.0, -1.0), g(0.5), gray()));
    world.add(Sphere::new(gv(0.0, 0.0, -3.0), g(0.5), gray()));
    assert_eq!(world.objects.len(), 2);
    assert_eq!(world.objects[1].center, gv(0.0, 0.0, -3.0));
    world.clear();
    assert_eq!(world.objects.len(), 0);
}

#[test]
fn empty_list_is_never_hit() {
    let world = HittableList::new();
    let r = Ray::new(gv(0.0, 0.0, 0.0), gv(0.0, 0.0, -1.0));
    assert!(world.hit(&r, forward()).is_none());
    assert!(world.hit(&r, Interval::full()).is_none());
}

#[test]
fn list_returns_the_nearer_of_two_hits() {
    let red = Surface::Lambertian(Lambertian::new(gv(1.0, 0.0, 0.0)));
    let blue = Surface::Lambertian(Lambertian::new(gv(0.0, 0.0, 1.0)));
    let a = Sphere::new(gv(0.0, 0.0, -5.0), g(1.0), red);
    let b = Sphere::new(gv(0.0, 0.0, -2.0), g(0.5), blue);
    let r = Ray::new(gv(0.0, 0.0, 0.0), gv(0.0, 0.0, -1.0));
    let ranges = [
        forward(),
        Interval::full(),
        Interval::new(g(1.6), g(10.0)),
        Interval::new(g(2.6), g(10.0)),
        Interval::new(g(4.5), g(5.0)),
        Interval::new(g(0.0), g(1.0)),
        Interval::new(g(0.0), g(1.5)),
    ];
    for range in ranges {
        let ha = a.hit(&r, range);
        let hb = b.hit(&r, range);
        let want = match (ha, hb) {
            (Some(x), Some(y)) => Some(if y.t.raw() < x.t.raw() { y } else { x }),
            (Some(x), None) => Some(x),
            (None, y) => y,
        };
        let mut ab = HittableList::new();
        ab.add(a);
        ab.add(b);
        let mut ba = HittableList::new();
        ba.add(b);
        ba.add(a);
        let got_ab = ab.hit(&r, range);
        let got_ba = ba.hit(&r, range);
        assert_eq!(got_ab.is_some(), want.is_some());
        assert_eq!(got_ba.is_some(), want.is_some());
        if let (Some(w), Some(x), Some(y)) = (want, got_ab, got_ba) {
            for got in [x, y] {
                assert_eq!(got.t, w.t);
                assert_eq!(got.p, w.p);
                assert_eq!(got.normal, w.normal);
                assert_eq!(got.front_face, w.front_face);
                assert_eq!(got.mat, w.mat);
            }
        }
    }
    let mut ab = HittableList::new();
    ab.add(a);
    ab.add(b);
    let h = ab.hit(&r, forward()).unwrap();
    assert_eq!(h.t, g(1.5));
    assert_eq!(h.mat, blue);
}

#[test]
fn list_keeps_the_first_of_two_equal_hits() {
    let red = Surface::Lambertian(Lambertian::new(gv(1.0, 0.0, 0.0)));
    let blue = Surface::Lambertian(Lambertian::new(gv(0.0, 0.0, 1.0)));
    let a = Sphere::new(gv(0.0, 0.0, -2.0), g(0.5), red);
    let b = Sphere::new(gv(0.0, 0.0, -2.0), g(0.5), blue);
    let r = Ray::new(gv(0.0, 0.0, 0.0), gv(0.0, 0.0, -1.0));
    let mut ab = HittableList::new();
    ab.add(a);
    ab.add(b);
    let mut ba = HittableList::new();
    ba.add(b);
    ba.add(a);
    let x = ab.hit(&r, forward()).unwrap();
    let y = ba.hit(&r, forward()).unwrap();
    assert_eq!(x.t, g(1.5));
    assert_eq!(y.t, g(1.5));
    assert_eq!(x.mat, red);
    assert_eq!(y.mat, blue);
}

#[test]
fn list_of_many_spheres_finds_the_nearest() {
    let mut world = HittableList::new();
    for k in [7, 3, 9, 2, 5, 8] {
        world.add(Sphere::new(gv(0.0, 0.0, -(k as f64)), g(0.25), gray()));
    }
    let r = Ray::new(gv(0.0, 0.0, 0.0), gv(0.0, 0.0, -1.0));
    assert_eq!(world.hit(&r, forward()).unwrap().t, g(1.75));
    assert_eq!(world.hit(&r, Interval::new(g(2.5), g(100.0))).unwrap().t, g(2.75));
    assert_eq!(world.hit(&r, Interval::new(g(6.0), g(100.0))).unwrap().t, g(6.75));
    assert!(world.hit(&r, Interval::new(g(9.5), g(100.0))).is_none());
}

#[test]
fn order_of_the_scene_does_not_change_the_distance() {
    let mut rng = RandomSource::Seeded(17);
    let mut spheres = Vec::new();
    for _ in 0..12 {
        let center = Vec3::random_in(g(-3.0), g(3.0), &mut rng).add(gv(0.0, 0.0, -6.0));
        let radius = Scalar::from_ratio(1, 4).add(rng.next());
        spheres.push(Sphere::new(center, radius, gray()));
    }
    let mut forwards = HittableList::new();
    let mut backwards = HittableList::new();
    let mut doubled = HittableList::new();
    for k in 0..12 {
        forwards.add(spheres[k]);
        backwards.add(spheres[11 - k]);
        doubled.add(spheres[(5 * k) % 12]);
        doubled.add(spheres[k]);
    }
    let mut hits = 0;
    for _ in 0..300 {
        let d = Vec3::random_in(g(-1.0), g(1.0), &mut rng).add(gv(0.0, 0.0, -2.0));
        let r = Ray::new(gv(0.0, 0.0, 0.0), d);
        let a = forwards.hit(&r, forward());
        let b = backwards.hit(&r, forward());
        let c = doubled.hit(&r, forward());
        assert_eq!(a.map(|h| h.t), b.map(|h| h.t));
        assert_eq!(a.map(|h| h.t), c.map(|h| h.t));
        let nearest = spheres.iter().filter_map(|s| s.hit(&r, forward())).map(|h| h.t.raw()).min();
        assert_eq!(a.map(|h| h.t.raw()), nearest);
        if a.is_some() {
            hits += 1;
        }
    }
    assert!(hits > 30);
}
