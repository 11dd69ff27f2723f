use raytracer::fixed::{Fixed, ONE_RAW};
use raytracer::vec3::Vec3;

fn fx(x: f64) -> Fixed {
    Fixed::from_raw((x * 4294967296.0).round() as i64)
}

fn v(x: f64, y: f64, z: f64) -> Vec3 {
    Vec3::new(fx(x), fx(y), fx(z))
}

fn raws(a: Vec3) -> (i64, i64, i64) {
    (a.x().raw(), a.y().raw(), a.z().raw())
}

fn as_f64(a: Fixed) -> f64 {
    a.raw() as f64 / 4294967296.0
}

#[test]
fn componentwise_arithmetic() {
    let a = v(1.0, 2.0, 3.0);
    let b = v(4.0, 5.0, 6.0);
    assert_eq!(a.add(b), v(5.0, 7.0, 9.0));
    assert_eq!(b.sub(a), v(3.0, 3.0, 3.0));
    assert_eq!(a.mul(b), v(4.0, 10.0, 18.0));
    assert_eq!(a.neg(), v(-1.0, -2.0, -3.0));
    assert_eq!(a.scale(fx(2.5)), v(2.5, 5.0, 7.5));
    assert_eq!(b.div(fx(2.0)), v(2.0, 2.5, 3.0));
    assert_eq!(Vec3::zero(), v(0.0, 0.0, 0.0));
}

#[test]
fn dot_and_cross_products() {
    let a = v(1.0, 2.0, 3.0);
    let b = v(4.0, 5.0, 6.0);
    assert_eq!(a.dot(&b).raw(), 32 * ONE_RAW);
    assert_eq!(a.cross(&b), v(-3.0, 6.0, -3.0));
    assert_eq!(v(1.0, 0.0, 0.0).cross(&v(0.0, 1.0, 0.0)), v(0.0, 0.0, 1.0));
    assert_eq!(a.cross(&a), Vec3::zero());
}

#[test]
fn lengths() {
    let a = v(3.0, 4.0, 12.0);
    assert_eq!(a.length().raw(), 13 * ONE_RAW);
    assert_eq!(a.length_squared().raw(), 169 * ONE_RAW);
    assert_eq!(Vec3::zero().length().raw(), 0);
}

#[test]
fn unit_vector_divides_by_the_length() {
    assert_eq!(raws(v(3.0, 4.0, 0.0).unit_vector()), (2576980377, 3435973836, 0));
    assert_eq!(raws(v(0.0, 0.0, -7.0).unit_vector()), (0, 0, -ONE_RAW));
    let tiny = Vec3::new(Fixed::from_raw(1), Fixed::zero(), Fixed::zero());
    assert_eq!(raws(tiny.unit_vector()), (ONE_RAW, 0, 0));
}

#[test]
fn unit_vector_has_length_one() {
    let samples = [
        v(3.0, 4.0, 12.0),
        v(-0.001, 0.002, 0.0005),
        v(1000.0, -2000.0, 1500.0),
        v(0.3, 0.3, 0.3),
        v(1e-4, 0.0, 0.0),
        v(123456.0, 654321.0, -1.0),
    ];
    for a in samples {
        let length = as_f64(a.unit_vector().length());
        assert!((length - 1.0).abs() <= 1e-5, "length {}", length);
    }
}

#[test]
fn normalized_leaves_the_zero_vector() {
    assert_eq!(Vec3::zero().normalized(), Vec3::zero());
    assert_eq!(v(0.0, 2.0, 0.0).normalized(), v(0.0, 1.0, 0.0));
}

#[test]
fn near_zero_bound() {
    let below = Fixed::from_raw(42);
    let at = Fixed::from_raw(43);
    assert!(Vec3::new(below, below.neg(), Fixed::zero()).near_zero());
    assert!(!Vec3::new(below, at, Fixed::zero()).near_zero());
    assert!(!Vec3::new(at.neg(), below, below).near_zero());
    assert!(Vec3::zero().near_zero());
}

#[test]
fn reflection_mirrors_about_the_normal() {
    let n = v(0.0, 1.0, 0.0);
    assert_eq!(v(1.0, -2.0, 0.5).reflect(&n), v(1.0, 2.0, 0.5));
    assert_eq!(v(1.0, 0.0, 0.0).reflect(&n), v(1.0, 0.0, 0.0));
}

#[test]
fn refraction_follows_snell() {
    let n = v(0.0, 1.0, 0.0);
    let ratio = Fixed::one().div(fx(1.5));
    assert_eq!(raws(v(0.0, -1.0, 0.0).refract(&n, ratio)), (0, -ONE_RAW, 0));
    let slanted = v(1.0, -1.0, 0.0).unit_vector();
    assert_eq!(raws(slanted), (3037000500, -3037000500, 0));
    assert_eq!(raws(slanted.refract(&n, ratio)), (2024666999, -3787805119, 0));
}

#[test]
fn spread_places_a_point_in_the_box() {
    let u = v(0.25, 0.0, 0.75);
    assert_eq!(Vec3::spread(fx(-1.0), fx(1.0), u), v(-0.5, -1.0, 0.5));
    assert_eq!(Vec3::spread(fx(0.5), fx(1.0), u), v(0.625, 0.5, 0.875));
}

#[test]
fn toward_turns_into_the_half_space() {
    let n = v(0.0, 1.0, 0.0);
    assert_eq!(v(0.5, 0.5, 0.0).toward(&n), v(0.5, 0.5, 0.0));
    assert_eq!(v(0.5, -0.5, 0.0).toward(&n), v(-0.5, 0.5, 0.0));
    assert_eq!(v(0.5, 0.0, 0.0).toward(&n), v(-0.5, 0.0, 0.0));
}

#[test]
fn random_vectors_lie_in_the_unit_cube() {
    let mut distinct = false;
    let first = Vec3::random();
    for _ in 0..200 {
        let a = Vec3::random();
        for c in [a.x(), a.y(), a.z()] {
            assert!(0 <= c.raw() && c.raw() < ONE_RAW);
        }
        distinct = distinct || a != first;
    }
    assert!(distinct);
}

#[test]
fn random_range_lies_in_the_box() {
    for _ in 0..200 {
        let a = Vec3::random_range(fx(0.5), fx(1.0));
        for c in [a.x(), a.y(), a.z()] {
            assert!(fx(0.5).raw() <= c.raw() && c.raw() < ONE_RAW);
        }
    }
}

#[test]
fn random_points_lie_in_the_unit_sphere() {
    for _ in 0..200 {
        let p = Vec3::random_in_unit_sphere();
        assert!(p.length_squared().raw() < ONE_RAW);
    }
}

#[test]
fn random_points_lie_in_the_unit_disk() {
    for _ in 0..200 {
        let p = Vec3::random_in_unit_disk();
        assert_eq!(p.z().raw(), 0);
        assert!(p.length_squared().raw() < ONE_RAW);
    }
}

#[test]
fn random_unit_vectors_have_length_one() {
    for _ in 0..200 {
        let u = Vec3::random_unit_vector();
        let length = as_f64(u.length());
        assert!(u == Vec3::zero() || (length - 1.0).abs() <= 1e-5, "length {}", length);
    }
}

#[test]
fn random_hemisphere_points_side_with_the_normal() {
    let n = v(0.0, 0.0, 1.0);
    for _ in 0..200 {
        let p = Vec3::random_in_hemisphere(&n);
        assert!(p.dot(&n).raw() >= 0);
        assert!(p.length_squared().raw() < ONE_RAW);
    }
}

#[test]
fn short_vectors_are_brought_to_ordinary_size() {
    let short = Vec3::new(Fixed::from_raw(2), Fixed::from_raw(-3), Fixed::zero());
    assert_eq!(short.reach().raw(), 3);
    assert_eq!(short.growth(), 1 << 30);
    assert_eq!(raws(short.grown()), (1 << 31, -3 * (1i64 << 30), 0));
    assert_eq!(raws(short.times(-2)), (-4, 6, 0));
    let long = v(3.0, -4.0, 0.25);
    assert_eq!(long.reach(), fx(4.0));
    assert_eq!(long.growth(), 1);
    assert_eq!(long.grown(), long);
    assert_eq!(Vec3::zero().grown(), Vec3::zero());
}

#[test]
fn short_vectors_are_normalised_to_length_one() {
    let short = Vec3::new(Fixed::from_raw(2), Fixed::from_raw(2), Fixed::zero());
    assert_eq!(raws(short.unit_vector()), (3037000500, 3037000500, 0));
    assert_eq!(short.unit_vector().length().raw(), ONE_RAW);
    assert_eq!(raws(short.normalized()), (3037000500, 3037000500, 0));
    assert_eq!(raws(v(-0.001, 0.002, 0.0005).unit_vector()), (-1874477217, 3748954871, 937238826));
    let mut state: u64 = 0x9e37_79b9_7f4a_7c15;
    for _ in 0..2000 {
        let mut components = [0i64; 3];
        for c in components.iter_mut() {
            state ^= state << 13;
            state ^= state >> 7;
            state ^= state << 17;
            let bits = (state >> 40) as i64 % 48;
            *c = ((state as i64) >> 8) % (1i64 << bits).max(2);
        }
        let a = Vec3::new(
            Fixed::from_raw(components[0]),
            Fixed::from_raw(components[1]),
            Fixed::from_raw(components[2]),
        );
        if a == Vec3::zero() {
            continue;
        }
        let length = a.unit_vector().length().raw();
        assert!(ONE_RAW - 2 <= length && length <= ONE_RAW + 42949, "{:?} {}", a, length);
    }
}
