use raytracer::color::{write_color, Rgb};
use raytracer::fixed::Fixed;
use raytracer::hittable_list::HittableList;
use raytracer::material::{Dielectric, Lambertian, MaterialKind};
use raytracer::ppm::{header, pixel_line, push_decimal};
use raytracer::sphere::Sphere;
use raytracer::vec3::Vec3;

fn fx(x: f64) -> Fixed {
    Fixed::from_raw((x * 4294967296.0).round() as i64)
}

fn v(x: f64, y: f64, z: f64) -> Vec3 {
    Vec3::new(fx(x), fx(y), fx(z))
}

#[test]
fn decimal_digits_are_appended() {
    let mut out = vec![b'x'];
    push_decimal(&mut out, 0);
    push_decimal(&mut out, 7);
    push_decimal(&mut out, 10);
    push_decimal(&mut out, 255);
    push_decimal(&mut out, 4294967295);
    assert_eq!(out, b"x07102554294967295".to_vec());
}

#[test]
fn pixel_line_lists_the_three_levels() {
    assert_eq!(pixel_line(Rgb { r: 0, g: 0, b: 0 }), b"0 0 0\n".to_vec());
    assert_eq!(pixel_line(Rgb { r: 255, g: 128, b: 7 }), b"255 128 7\n".to_vec());
    assert_eq!(pixel_line(Rgb { r: 10, g: 100, b: 99 }), b"10 100 99\n".to_vec());
}

#[test]
fn header_has_three_lines() {
    let mut large = vec![b'P', b'3', b'\n'];
    large.extend_from_slice(b"1200 800\n255\n");
    assert_eq!(header(1200, 800), large);
    let mut small = vec![b'P', b'3', b'\n'];
    small.extend_from_slice(b"1 1\n255\n");
    assert_eq!(header(1, 1), small);
}

#[test]
fn write_color_gives_the_line_of_the_pixel() {
    assert_eq!(write_color(v(1.0, 4.0, 0.0), 4), b"128 255 0\n".to_vec());
    assert_eq!(write_color(v(50.0, 12.5, 2.0), 50), b"255 128 51\n".to_vec());
    assert_eq!(write_color(v(-1.0, 0.0, 0.25), 1), b"0 0 128\n".to_vec());
}

#[test]
fn validity_is_checked_at_run_time() {
    let grey = MaterialKind::Lambertian(Lambertian::new(v(0.5, 0.5, 0.5)));
    let glass = MaterialKind::Dielectric(Dielectric::new(fx(1.5)));
    let void = MaterialKind::Dielectric(Dielectric { ir: fx(0.0) });
    let dark = MaterialKind::Dielectric(Dielectric { ir: fx(-1.5) });
    assert!(grey.is_valid() && glass.is_valid());
    assert!(!void.is_valid() && !dark.is_valid());
    let good = Sphere::new(v(0.0, 0.0, -1.0), fx(0.5), glass);
    let flat = Sphere { center: v(0.0, 0.0, -1.0), radius: fx(0.0), mat_ptr: grey };
    let hollow = Sphere { center: v(0.0, 0.0, -1.0), radius: fx(-0.5), mat_ptr: glass };
    let wrong = Sphere { center: v(0.0, 0.0, -1.0), radius: fx(0.5), mat_ptr: void };
    assert!(good.is_valid() && hollow.is_valid());
    assert!(!flat.is_valid() && !wrong.is_valid());
    let mut world = HittableList::new();
    assert!(world.is_valid());
    world.add(good);
    world.add(hollow);
    assert!(world.is_valid());
    world.add(flat);
    world.add(good);
    assert!(!world.is_valid());
}
