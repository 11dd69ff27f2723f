use raytracer::fixed::Fixed;
use raytracer::ray::Ray;
use raytracer::vec3::Vec3;

fn fx(x: f64) -> Fixed {
    Fixed::from_raw((x * 4294967296.0).round() as i64)
}

fn v(x: f64, y: f64, z: f64) -> Vec3 {
    Vec3::new(fx(x), fx(y), fx(z))
}

#[test]
fn ray_keeps_origin_and_direction() {
    let r = Ray::new(v(1.0, 2.0, 3.0), v(0.0, 0.0, -2.0));
    assert_eq!(r.origin, v(1.0, 2.0, 3.0));
    assert_eq!(r.direction, v(0.0, 0.0, -2.0));
}

#[test]
fn ray_at_walks_along_the_direction() {
    let r = Ray::new(v(1.0, 2.0, 3.0), v(0.5, 0.0, -2.0));
    assert_eq!(r.at(fx(0.0)), v(1.0, 2.0, 3.0));
    assert_eq!(r.at(fx(2.0)), v(2.0, 2.0, -1.0));
    assert_eq!(r.at(fx(-1.0)), v(0.5, 2.0, 5.0));
}
