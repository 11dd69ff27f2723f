use raytracer::camera::Camera;
use raytracer::fixed::{Fixed, ONE_RAW};
use raytracer::vec3::Vec3;

fn fx(x: f64) -> Fixed {
    Fixed::from_raw((x * 4294967296.0).round() as i64)
}

fn v(x: f64, y: f64, z: f64) -> Vec3 {
    Vec3::new(fx(x), fx(y), fx(z))
}

fn raws(a: Vec3) -> (i64, i64, i64) {
    (a.x().raw(), a.y().raw(), a.z().raw())
}

fn straight() -> Camera {
    Camera::new(
        v(0.0, 0.0, 0.0),
        v(0.0, 0.0, -1.0),
        v(0.0, 1.0, 0.0),
        fx(90.0),
        fx(2.0),
        fx(0.0),
        fx(1.0),
    )
}

#[test]
fn camera_looks_through_the_middle_of_the_viewport() {
    let r = straight().ray_through(fx(0.5), fx(0.5), Vec3::zero());
    assert_eq!(r.origin, Vec3::zero());
    assert_eq!(raws(r.direction), (0, 0, -ONE_RAW));
}

#[test]
fn camera_aims_at_the_corners_of_the_viewport() {
    let camera = straight();
    let upper_left = camera.ray_through(fx(0.0), fx(1.0), Vec3::zero());
    assert_eq!(raws(upper_left.direction), (-8589934588, 4294967294, -ONE_RAW));
    let lower_left = camera.ray_through(fx(0.0), fx(0.0), Vec3::zero());
    assert_eq!(raws(lower_left.direction), (-8589934588, -4294967294, -ONE_RAW));
    let upper_right = camera.ray_through(fx(1.0), fx(1.0), Vec3::zero());
    assert_eq!(raws(upper_right.direction), (8589934588, 4294967294, -ONE_RAW));
}

#[test]
fn camera_with_a_lens_starts_rays_on_the_lens() {
    let camera = Camera::new(
        v(13.0, 2.0, 3.0),
        v(0.0, 0.0, 0.0),
        v(0.0, 1.0, 0.0),
        fx(20.0),
        fx(1.5),
        fx(0.1),
        fx(10.0),
    );
    let r = camera.ray_through(fx(0.25), fx(0.75), v(0.5, -0.25, 0.0));
    assert_eq!(raws(r.origin), (55866474233, 8536840747, 12782067111));
    assert_eq!(raws(r.direction), (-43243403105, -2569438318, -4039883069));
}

#[test]
fn camera_without_aperture_ignores_the_lens_point() {
    let camera = straight();
    let a = camera.ray_through(fx(0.3), fx(0.6), Vec3::zero());
    let b = camera.ray_through(fx(0.3), fx(0.6), v(0.7, -0.7, 0.0));
    assert_eq!(a, b);
    for _ in 0..20 {
        assert_eq!(camera.get_ray(fx(0.3), fx(0.6)), a);
    }
}

#[test]
fn camera_get_ray_starts_within_the_lens() {
    let camera = Camera::new(
        v(0.0, 0.0, 0.0),
        v(0.0, 0.0, -1.0),
        v(0.0, 1.0, 0.0),
        fx(90.0),
        fx(1.0),
        fx(0.5),
        fx(2.0),
    );
    let mut moved = false;
    for _ in 0..100 {
        let r = camera.get_ray(fx(0.5), fx(0.5));
        assert_eq!(r.origin.z().raw(), 0);
        assert!(r.origin.length().raw() <= ONE_RAW / 4 + 4);
        let focus = r.at(Fixed::one());
        let off = focus.sub(v(0.0, 0.0, -2.0));
        assert!(off.length().raw() <= 16);
        moved = moved || r.origin != Vec3::zero();
    }
    assert!(moved);
}

#[test]
fn try_new_builds_the_same_camera() {
    let built = Camera::try_new(
        v(0.0, 0.0, 0.0),
        v(0.0, 0.0, -1.0),
        v(0.0, 1.0, 0.0),
        fx(90.0),
        fx(2.0),
        fx(0.0),
        fx(1.0),
    );
    let camera = built.expect("a camera");
    assert_eq!(
        camera.ray_through(fx(0.1), fx(0.9), Vec3::zero()),
        straight().ray_through(fx(0.1), fx(0.9), Vec3::zero())
    );
}

#[test]
fn try_new_refuses_an_eye_on_the_target() {
    let built = Camera::try_new(
        v(1.0, 2.0, 3.0),
        v(1.0, 2.0, 3.0),
        v(0.0, 1.0, 0.0),
        fx(90.0),
        fx(2.0),
        fx(0.0),
        fx(1.0),
    );
    assert!(built.is_none());
}

#[test]
fn try_new_refuses_an_up_vector_along_the_view() {
    let built = Camera::try_new(
        v(0.0, 0.0, 0.0),
        v(0.0, -5.0, 0.0),
        v(0.0, 1.0, 0.0),
        fx(90.0),
        fx(2.0),
        fx(0.0),
        fx(1.0),
    );
    assert!(built.is_none());
}

#[test]
fn try_new_refuses_a_field_of_view_of_half_a_turn() {
    let built = Camera::try_new(
        v(0.0, 0.0, 0.0),
        v(0.0, 0.0, -1.0),
        v(0.0, 1.0, 0.0),
        fx(180.0),
        fx(2.0),
        fx(0.0),
        fx(1.0),
    );
    assert!(built.is_none());
}

#[test]
fn try_new_refuses_a_field_of_view_outside_half_a_turn() {
    for degrees in [0.0, -20.0, 180.5, 200.0, 720.0] {
        let built = Camera::try_new(
            v(0.0, 0.0, 0.0),
            v(0.0, 0.0, -1.0),
            v(0.0, 1.0, 0.0),
            fx(degrees),
            fx(2.0),
            fx(0.0),
            fx(1.0),
        );
        assert!(built.is_none(), "{}", degrees);
    }
    for degrees in [0.001, 20.0, 90.0, 160.0, 179.0] {
        let built = Camera::try_new(
            v(0.0, 0.0, 0.0),
            v(0.0, 0.0, -1.0),
            v(0.0, 1.0, 0.0),
            fx(degrees),
            fx(2.0),
            fx(0.0),
            fx(1.0),
        );
        assert!(built.is_some(), "{}", degrees);
    }
}

#[test]
fn camera_close_to_its_target_has_a_basis_of_length_one() {
    let eye = Vec3::new(Fixed::from_raw(2), Fixed::from_raw(2), Fixed::zero());
    let camera = Camera::try_new(
        eye,
        Vec3::zero(),
        v(0.0, 0.0, 1.0),
        fx(90.0),
        fx(1.0),
        fx(0.0),
        fx(1.0),
    )
    .expect("a camera");
    let r = camera.ray_through(fx(0.5), fx(0.5), Vec3::zero());
    assert_eq!(r.origin, eye);
    assert_eq!(raws(r.direction), (-3037000500, -3037000500, 0));
    assert_eq!(r.direction.length().raw(), ONE_RAW);
}

#[test]
fn camera_rays_span_a_right_angled_viewport() {
    let camera = Camera::new(
        v(13.0, 2.0, 3.0),
        v(0.0, 0.0, 0.0),
        v(0.0, 1.0, 0.0),
        fx(20.0),
        fx(1.5),
        fx(0.0),
        fx(10.0),
    );
    let corner = camera.ray_through(fx(0.0), fx(0.0), Vec3::zero()).direction;
    let right = camera.ray_through(fx(1.0), fx(0.0), Vec3::zero()).direction;
    let up = camera.ray_through(fx(0.0), fx(1.0), Vec3::zero()).direction;
    let middle = camera.ray_through(fx(0.5), fx(0.5), Vec3::zero()).direction;
    let horizontal = right.sub(corner);
    let vertical = up.sub(corner);
    assert!(horizontal.dot(&vertical).raw().abs() <= 1 << 12);
    assert!(horizontal.dot(&middle).raw().abs() <= 1 << 12);
    assert!(vertical.dot(&middle).raw().abs() <= 1 << 12);
    assert!((middle.length().raw() - 10 * ONE_RAW).abs() <= 1 << 12);
    let ratio = horizontal.length().raw() as f64 / vertical.length().raw() as f64;
    assert!((ratio - 1.5).abs() <= 1e-8);
}
