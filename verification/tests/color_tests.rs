use raytracer::color::{pixel_rgb, Rgb};
use raytracer::fixed::Fixed;
use raytracer::vec3::Vec3;

fn fx(x: f64) -> Fixed {
    Fixed::from_raw((x * 4294967296.0).round() as i64)
}

fn v(x: f64, y: f64, z: f64) -> Vec3 {
    Vec3::new(fx(x), fx(y), fx(z))
}

#[test]
fn pixel_is_averaged_and_gamma_corrected() {
    assert_eq!(pixel_rgb(v(1.0, 4.0, 0.0), 4), Rgb { r: 128, g: 255, b: 0 });
    assert_eq!(pixel_rgb(v(0.25, 0.5, 0.75), 1), Rgb { r: 128, g: 181, b: 221 });
    assert_eq!(pixel_rgb(v(50.0, 12.5, 2.0), 50), Rgb { r: 255, g: 128, b: 51 });
}

#[test]
fn pixel_is_clamped_below_one() {
    assert_eq!(pixel_rgb(v(1.0, 0.999, 0.998), 1), Rgb { r: 255, g: 255, b: 255 });
    assert_eq!(pixel_rgb(v(7.0, 1000.0, 1.0e6), 1), Rgb { r: 255, g: 255, b: 255 });
    assert_eq!(pixel_rgb(v(0.99, 0.0, 0.0), 1), Rgb { r: 254, g: 0, b: 0 });
}

#[test]
fn pixel_counts_negative_light_as_none() {
    assert_eq!(pixel_rgb(v(-1.0, -0.001, 0.0), 1), Rgb { r: 0, g: 0, b: 0 });
}
