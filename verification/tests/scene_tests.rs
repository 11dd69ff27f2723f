use raytracer::fixed::{Fixed, ONE_RAW};
use raytracer::hittable::{HitRecord, Hittable};
use raytracer::material::{Dielectric, Lambertian, MaterialKind, Metal};
use raytracer::ray::Ray;
use raytracer::scene::{ground, large_spheres, random_scene, small_sphere};
use raytracer::sphere::Sphere;
use raytracer::vec3::Vec3;

fn fx(x: f64) -> Fixed {
    Fixed::from_raw((x * 4294967296.0).round() as i64)
}

fn v(x: f64, y: f64, z: f64) -> Vec3 {
    Vec3::new(fx(x), fx(y), fx(z))
}

fn raws(a: Vec3) -> (i64, i64, i64) {
    (a.x().raw(), a.y().raw(), a.z().raw())
}

fn draw(a: i32, b: i32, choose_mat: f64, jitter_x: f64, jitter_z: f64) -> Option<Sphere> {
    small_sphere(
        a,
        b,
        fx(choose_mat),
        fx(jitter_x),
        fx(jitter_z),
        v(0.5, 0.25, 0.0),
        v(0.5, 0.5, 0.5),
        fx(0.5),
    )
}

#[test]
fn ground_is_a_large_grey_sphere() {
    let s = ground();
    assert_eq!(s.center, v(0.0, -1000.0, 0.0));
    assert_eq!(s.radius, fx(1000.0));
    assert_eq!(s.mat_ptr, MaterialKind::Lambertian(Lambertian::new(v(0.5, 0.5, 0.5))));
}

#[test]
fn large_spheres_are_glass_matte_and_metal() {
    let (glass, matte, metal) = large_spheres();
    assert_eq!(glass.center, v(0.0, 1.0, 0.0));
    assert_eq!(glass.mat_ptr, MaterialKind::Dielectric(Dielectric::new(fx(1.5))));
    assert_eq!(matte.center, v(-4.0, 1.0, 0.0));
    match matte.mat_ptr {
        MaterialKind::Lambertian(m) => {
            assert_eq!(raws(m.albedo), (1717986918, 858993459, 429496729))
        }
        _ => panic!("the second sphere is matte"),
    }
    assert_eq!(metal.center, v(4.0, 1.0, 0.0));
    match metal.mat_ptr {
        MaterialKind::Metal(m) => {
            assert_eq!(raws(m.albedo), (3006477107, 2576980377, 2147483648));
            assert_eq!(m.fuzz.raw(), 0);
        }
        _ => panic!("the third sphere is metal"),
    }
    for s in [glass, matte, metal] {
        assert_eq!(s.radius.raw(), ONE_RAW);
    }
}

#[test]
fn small_sphere_sits_in_its_cell() {
    let s = draw(0, 0, 0.1, 0.5, 0.25).expect("a sphere");
    assert_eq!(raws(s.center), (1932735283, 858993459, 966367641));
    assert_eq!(s.radius.raw(), 858993459);
    let t = draw(-11, 10, 0.1, 0.0, 0.0).expect("a sphere");
    assert_eq!(raws(t.center), (-11 * ONE_RAW, 858993459, 10 * ONE_RAW));
}

#[test]
fn small_sphere_material_follows_the_draw() {
    match draw(0, 0, 0.79, 0.5, 0.25).unwrap().mat_ptr {
        MaterialKind::Lambertian(m) => assert_eq!(raws(m.albedo), (1073741824, 536870912, 0)),
        _ => panic!("diffuse below 0.8"),
    }
    match draw(0, 0, 0.8, 0.5, 0.25).unwrap().mat_ptr {
        MaterialKind::Metal(m) => {
            assert_eq!(raws(m.albedo), (3221225472, 2684354560, 2147483648));
            assert_eq!(m.fuzz.raw(), 1073741824);
        }
        _ => panic!("metal from 0.8"),
    }
    match draw(0, 0, 0.94, 0.5, 0.25).unwrap().mat_ptr {
        MaterialKind::Metal(_) => {}
        _ => panic!("metal below 0.95"),
    }
    assert_eq!(
        draw(0, 0, 0.95, 0.5, 0.25).unwrap().mat_ptr,
        MaterialKind::Dielectric(Dielectric::new(fx(1.5)))
    );
    assert_eq!(
        draw(0, 0, 0.999, 0.5, 0.25).unwrap().mat_ptr,
        MaterialKind::Dielectric(Dielectric::new(fx(1.5)))
    );
}

#[test]
fn small_sphere_keeps_clear_of_the_metal_ball() {
    assert!(draw(4, 0, 0.1, 0.0, 0.0).is_none());
    assert!(draw(3, 0, 0.1, 0.5, 0.5).is_none());
    assert!(draw(3, -1, 0.1, 0.9, 0.9).is_none());
    assert!(draw(5, 0, 0.1, 0.0, 0.0).is_some());
    assert!(draw(4, 1, 0.1, 0.0, 0.0).is_some());
}

#[test]
fn random_scene_has_ground_grid_and_large_spheres() {
    let world = random_scene();
    let n = world.len();
    assert!(4 <= n && n <= 488);
    assert!(n > 400);
    assert_eq!(world.get(0), ground());
    let (glass, matte, metal) = large_spheres();
    assert_eq!(world.get(n - 3), glass);
    assert_eq!(world.get(n - 2), matte);
    assert_eq!(world.get(n - 1), metal);
    for k in 1..n - 3 {
        let s = world.get(k);
        assert_eq!(s.radius.raw(), 858993459);
        assert_eq!(s.center.y().raw(), 858993459);
        assert!(-11 * ONE_RAW <= s.center.x().raw() && s.center.x().raw() < 11 * ONE_RAW);
        assert!(-11 * ONE_RAW <= s.center.z().raw() && s.center.z().raw() < 11 * ONE_RAW);
        assert!(s.center.sub(v(4.0, 0.2, 0.0)).length().raw() > 3865470566);
        match s.mat_ptr {
            MaterialKind::Metal(m) => {
                assert!(0 <= m.fuzz.raw() && m.fuzz.raw() < ONE_RAW / 2);
                assert!(m.albedo.x().raw() >= ONE_RAW / 2 && m.albedo.x().raw() < ONE_RAW);
            }
            MaterialKind::Lambertian(m) => {
                assert!(0 <= m.albedo.x().raw() && m.albedo.x().raw() < ONE_RAW)
            }
            MaterialKind::Dielectric(m) => assert_eq!(m.ir, fx(1.5)),
        }
    }
}

#[test]
fn random_scenes_differ() {
    let a = random_scene();
    let b = random_scene();
    let same = a.len() == b.len() && (0..a.len()).all(|k| a.get(k) == b.get(k));
    assert!(!same);
}

#[test]
fn random_scene_is_seen_from_above() {
    let world = random_scene();
    let r = Ray::new(v(0.0, 5.0, 0.0), v(0.0, -1.0, 0.0));
    let mut rec = HitRecord::new_empty();
    assert!(world.hit(&r, fx(0.001), Fixed::max_value(), &mut rec));
    assert_eq!(rec.t, fx(3.0));
    assert_eq!(rec.mat_ptr, MaterialKind::Dielectric(Dielectric::new(fx(1.5))));
    assert!(rec.front_face);
    let _ = Metal::new(v(0.0, 0.0, 0.0), fx(0.0));
}
