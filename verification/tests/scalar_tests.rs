use raytracer::interval::Interval;
use raytracer::scalar::Scalar;
use raytracer::scalar::MAX_RAW;
use raytracer::scalar::MIN_RAW;
use raytracer::scalar::ONE_RAW;
use raytracer::utils::degrees_to_radians;
use raytracer::utils::random_double;
use raytracer::utils::random_double_from;
use raytracer::utils::RandomSource;

fn num(x: f64) -> Scalar {
    Scalar::from_raw((x * 4294967296.0).round() as i64)
}

fn as_f64(x: Scalar) -> f64 {
    x.raw() as f64 / 4294967296.0
}

#[test]
fn scalar_constants() {
    assert_eq!(Scalar::zero().raw(), 0);
    assert_eq!(Scalar::one().raw(), ONE_RAW);
    assert_eq!(Scalar::infinity().raw(), MAX_RAW);
    assert_eq!(Scalar::neg_infinity().raw(), MIN_RAW);
    assert_eq!(Scalar::from_int(3).raw(), 3 * ONE_RAW);
    assert_eq!(Scalar::from_int(-2).raw(), -2 * ONE_RAW);
    assert_eq!(Scalar::from_ratio(1, 2).raw(), ONE_RAW / 2);
    assert_eq!(Scalar::from_ratio(-1, 2).raw(), -ONE_RAW / 2);
    assert_eq!(Scalar::from_ratio(1, -4).raw(), -ONE_RAW / 4);
    assert_eq!(Scalar::from_ratio(999, 1000).raw(), 4290672328);
    assert_eq!(Scalar::from_ratio(1, 10000).raw(), 429496);
}

#[test]
fn scalar_add_sub_neg() {
    assert_eq!(num(1.5).add(num(2.25)), num(3.75));
    assert_eq!(num(1.5).sub(num(2.25)), num(-0.75));
    assert_eq!(num(1.5).neg(), num(-1.5));
    assert_eq!(num(-1.5).abs(), num(1.5));
    assert_eq!(num(1.5).abs(), num(1.5));
    assert_eq!(num(1.5).min(num(-2.0)), num(-2.0));
    assert_eq!(num(-3.0).min(num(-2.0)), num(-3.0));
}

#[test]
fn scalar_saturates_at_the_ends() {
    assert_eq!(Scalar::infinity().add(Scalar::one()).raw(), MAX_RAW);
    assert_eq!(Scalar::neg_infinity().sub(Scalar::one()).raw(), MIN_RAW);
    assert_eq!(Scalar::neg_infinity().neg().raw(), MAX_RAW);
    assert_eq!(Scalar::infinity().mul(Scalar::from_int(2)).raw(), MAX_RAW);
    assert_eq!(Scalar::infinity().mul(Scalar::from_int(-2)).raw(), MIN_RAW);
    assert_eq!(Scalar::infinity().div(Scalar::from_ratio(1, 2)).raw(), MAX_RAW);
}

#[test]
fn scalar_mul_rounds_down() {
    assert_eq!(num(1.5).mul(num(2.5)), num(3.75));
    assert_eq!(num(-1.5).mul(num(2.5)), num(-3.75));
    assert_eq!(Scalar::from_raw(1).mul(Scalar::from_raw(1)).raw(), 0);
    assert_eq!(Scalar::from_raw(1).mul(Scalar::from_raw(-1)).raw(), -1);
    assert_eq!(Scalar::from_raw(3).mul(Scalar::from_ratio(1, 2)).raw(), 1);
    assert_eq!(Scalar::from_raw(-3).mul(Scalar::from_ratio(1, 2)).raw(), -2);
}

#[test]
fn scalar_div_rounds_down() {
    assert_eq!(num(1.0).div(num(4.0)), num(0.25));
    assert_eq!(num(1.0).div(num(-4.0)), num(-0.25));
    assert_eq!(num(-7.5).div(num(2.5)), num(-3.0));
    assert_eq!(Scalar::from_raw(1).div(Scalar::from_int(2)).raw(), 0);
    assert_eq!(Scalar::from_raw(-1).div(Scalar::from_int(2)).raw(), -1);
    assert_eq!(Scalar::from_raw(1).div(Scalar::from_int(-2)).raw(), -1);
    assert_eq!(Scalar::from_int(1).div(Scalar::from_int(3)).raw(), 1431655765);
}

#[test]
fn scalar_sqrt_is_the_floor_of_the_root() {
    assert_eq!(num(4.0).sqrt(), num(2.0));
    assert_eq!(num(0.25).sqrt(), num(0.5));
    assert_eq!(Scalar::zero().sqrt(), Scalar::zero());
    assert_eq!(Scalar::from_raw(1).sqrt().raw(), 65536);
    let r = Scalar::from_int(2).sqrt().raw() as i128;
    let n = (2i128 << 32) << 32;
    assert!(r * r <= n && n < (r + 1) * (r + 1));
    assert_eq!(r, 6074000999);
    let top = Scalar::infinity().sqrt().raw() as i128;
    let m = (MAX_RAW as i128) << 32;
    assert!(top * top <= m && m < (top + 1) * (top + 1));
}

#[test]
fn scalar_floor_rounds_toward_minus_infinity() {
    assert_eq!(num(2.75).floor(), 2);
    assert_eq!(num(-2.75).floor(), -3);
    assert_eq!(num(3.0).floor(), 3);
    assert_eq!(num(-3.0).floor(), -3);
    assert_eq!(Scalar::from_raw(-1).floor(), -1);
}

#[test]
fn scalar_tan_is_close_to_the_tangent() {
    assert_eq!(Scalar::zero().tan(), Scalar::zero());
    for k in -15..16 {
        let x = k as f64 / 10.0;
        let got = as_f64(num(x).tan());
        let want = x.tan();
        assert!((got - want).abs() <= 1e-6 * (1.0 + want * want), "tan({}) = {}, not {}", x, got, want);
    }
    let quarter = as_f64(degrees_to_radians(Scalar::from_int(45)).tan());
    assert!((quarter - 1.0).abs() < 1e-8);
}

#[test]
fn degrees_to_radians_of_known_angles() {
    assert_eq!(degrees_to_radians(Scalar::zero()), Scalar::zero());
    assert!((as_f64(degrees_to_radians(Scalar::from_int(180))) - std::f64::consts::PI).abs() < 1e-9);
    assert!((as_f64(degrees_to_radians(Scalar::from_int(90))) - std::f64::consts::FRAC_PI_2).abs() < 1e-9);
    assert!((as_f64(degrees_to_radians(Scalar::from_int(-45))) + std::f64::consts::FRAC_PI_4).abs() < 1e-9);
    assert_eq!(degrees_to_radians(Scalar::from_int(180)).raw(), 13493037705);
}

#[test]
fn interval_contains_its_ends() {
    let i = Interval::new(num(1.0), num(2.0));
    assert!(i.contains(num(1.0)));
    assert!(i.contains(num(2.0)));
    assert!(i.contains(num(1.5)));
    assert!(!i.contains(Scalar::from_raw(ONE_RAW - 1)));
    assert!(!i.contains(Scalar::from_raw(2 * ONE_RAW + 1)));
}

#[test]
fn interval_clamp_brings_into_range() {
    let i = Interval::new(num(0.0), num(0.999));
    assert_eq!(i.clamp(num(-0.5)), num(0.0));
    assert_eq!(i.clamp(num(0.5)), num(0.5));
    assert_eq!(i.clamp(num(1.5)), num(0.999));
}

#[test]
fn interval_full_and_empty() {
    let full = Interval::full();
    assert!(full.contains(Scalar::infinity()));
    assert!(full.contains(Scalar::neg_infinity()));
    assert!(full.contains(Scalar::zero()));
    let empty = Interval::empty();
    assert_eq!(empty.min, Scalar::zero());
    assert_eq!(empty.max, Scalar::from_int(-1));
    assert!(!empty.contains(Scalar::zero()));
    assert!(!empty.contains(Scalar::from_int(-1)));
    assert!(!empty.contains(num(-0.5)));
}

#[test]
fn fixed_source_repeats_its_value() {
    let mut rng = RandomSource::Fixed(0x4000_0000);
    for _ in 0..5 {
        assert_eq!(random_double(&mut rng), num(0.25));
    }
    assert!(matches!(rng, RandomSource::Fixed(0x4000_0000)));
}

#[test]
fn seeded_source_is_reproducible() {
    let mut a = RandomSource::Seeded(42);
    let mut b = RandomSource::Seeded(42);
    let mut c = RandomSource::Seeded(43);
    let mut differs = false;
    let mut spread = false;
    let first = a.next();
    assert_eq!(first, b.next());
    for _ in 0..100 {
        let x = a.next();
        assert_eq!(x, b.next());
        assert!(0 <= x.raw() && x.raw() < ONE_RAW);
        differs = differs || x != c.next();
        spread = spread || x != first;
    }
    assert!(differs);
    assert!(spread);
}

#[test]
fn seeded_source_follows_its_recurrence() {
    let mut rng = RandomSource::Seeded(1);
    let state = 1u64.wrapping_mul(6364136223846793005).wrapping_add(1442695040888963407);
    assert_eq!(rng.next().raw(), (state >> 32) as i64);
    assert!(matches!(rng, RandomSource::Seeded(s) if s == state));
    let second = state.wrapping_mul(6364136223846793005).wrapping_add(1442695040888963407);
    assert_eq!(rng.next().raw(), (second >> 32) as i64);
}

#[test]
fn thread_source_draws_from_the_unit_range() {
    let mut rng = RandomSource::Thread;
    let first = random_double(&mut rng);
    let mut spread = false;
    for _ in 0..64 {
        let x = random_double(&mut rng);
        assert!(0 <= x.raw() && x.raw() < ONE_RAW);
        spread = spread || x != first;
    }
    assert!(spread);
    assert!(matches!(rng, RandomSource::Thread));
}

#[test]
fn random_double_from_stretches_the_draw() {
    let mut rng = RandomSource::Fixed(0x4000_0000);
    assert_eq!(random_double_from(num(-1.0), num(1.0), &mut rng), num(-0.5));
    assert_eq!(random_double_from(num(2.0), num(6.0), &mut rng), num(3.0));
    let mut thread = RandomSource::Thread;
    for _ in 0..64 {
        let x = random_double_from(num(0.5), num(1.0), &mut thread);
        assert!(num(0.5).raw() <= x.raw() && x.raw() < num(1.0).raw());
    }
}
