use raytracer::fixed::{Fixed, ONE_RAW};
use raytracer::hittable::{HitRecord, Hittable};
use raytracer::hittable_list::HittableList;
use raytracer::material::{Dielectric, Lambertian, MaterialKind, Metal};
use raytracer::ray::Ray;
use raytracer::sphere::Sphere;
use raytracer::vec3::Vec3;

fn fx(x: f64) -> Fixed {
    Fixed::from_raw((x * 4294967296.0).round() as i64)
}

fn v(x: f64, y: f64, z: f64) -> Vec3 {
    Vec3::new(fx(x), fx(y), fx(z))
}

fn as_f64(a: Fixed) -> f64 {
    a.raw() as f64 / 4294967296.0
}

fn grey() -> MaterialKind {
    MaterialKind::Lambertian(Lambertian::new(v(0.5, 0.5, 0.5)))
}

fn glass() -> MaterialKind {
    MaterialKind::Dielectric(Dielectric::new(fx(1.5)))
}

fn steel() -> MaterialKind {
    MaterialKind::Metal(Metal::new(v(0.8, 0.8, 0.8), fx(0.0)))
}

fn down_z() -> Ray {
    Ray::new(v(0.0, 0.0, 0.0), v(0.0, 0.0, -1.0))
}

#[test]
fn empty_record_is_blank() {
    let rec = HitRecord::new_empty();
    assert_eq!(rec.p, Vec3::zero());
    assert_eq!(rec.normal, Vec3::zero());
    assert_eq!(rec.t, Fixed::zero());
    assert!(!rec.front_face);
    assert_eq!(rec.mat_ptr, MaterialKind::Lambertian(Lambertian::new(Vec3::zero())));
}

#[test]
fn set_face_normal_keeps_outward_normal_at_the_front() {
    let mut rec = HitRecord::new_empty();
    rec.t = fx(3.0);
    rec.set_face_normal(&down_z(), &v(0.0, 0.0, 1.0));
    assert!(rec.front_face);
    assert_eq!(rec.normal, v(0.0, 0.0, 1.0));
    assert_eq!(rec.t, fx(3.0));
}

#[test]
fn set_face_normal_turns_the_normal_at_the_back() {
    let mut rec = HitRecord::new_empty();
    rec.set_face_normal(&down_z(), &v(0.0, 0.0, -1.0));
    assert!(!rec.front_face);
    assert_eq!(rec.normal, v(0.0, 0.0, 1.0));
    rec.set_face_normal(&down_z(), &v(1.0, 0.0, 0.0));
    assert!(!rec.front_face);
    assert_eq!(rec.normal, v(-1.0, 0.0, 0.0));
}

#[test]
fn sphere_is_hit_at_the_nearer_root() {
    let s = Sphere::new(v(0.0, 0.0, -5.0), fx(1.0), grey());
    let mut rec = HitRecord::new_empty();
    assert!(s.hit(&down_z(), fx(0.001), Fixed::max_value(), &mut rec));
    assert_eq!(rec.t, fx(4.0));
    assert_eq!(rec.p, v(0.0, 0.0, -4.0));
    assert_eq!(rec.normal, v(0.0, 0.0, 1.0));
    assert!(rec.front_face);
    assert_eq!(rec.mat_ptr, grey());
}

#[test]
fn sphere_is_hit_from_inside_at_the_farther_root() {
    let s = Sphere::new(v(0.0, 0.0, -5.0), fx(1.0), glass());
    let r = Ray::new(v(0.0, 0.0, -5.0), v(0.0, 0.0, -1.0));
    let mut rec = HitRecord::new_empty();
    assert!(s.hit(&r, fx(0.001), Fixed::max_value(), &mut rec));
    assert_eq!(rec.t, fx(1.0));
    assert_eq!(rec.p, v(0.0, 0.0, -6.0));
    assert_eq!(rec.normal, v(0.0, 0.0, 1.0));
    assert!(!rec.front_face);
    assert_eq!(rec.mat_ptr, glass());
}

#[test]
fn sphere_beside_the_ray_is_missed() {
    let s = Sphere::new(v(3.0, 0.0, -5.0), fx(1.0), grey());
    let mut rec = HitRecord::new_empty();
    rec.t = fx(9.0);
    let before = rec;
    assert!(!s.hit(&down_z(), fx(0.001), Fixed::max_value(), &mut rec));
    assert_eq!(rec, before);
}

#[test]
fn sphere_behind_the_ray_is_missed() {
    let s = Sphere::new(v(0.0, 0.0, 5.0), fx(1.0), grey());
    let mut rec = HitRecord::new_empty();
    assert!(!s.hit(&down_z(), fx(0.001), Fixed::max_value(), &mut rec));
}

#[test]
fn interval_bounds_are_excluded() {
    let s = Sphere::new(v(0.0, 0.0, -5.0), fx(1.0), grey());
    let mut rec = HitRecord::new_empty();
    assert!(!s.hit(&down_z(), fx(0.001), fx(4.0), &mut rec));
    assert!(s.hit(&down_z(), fx(4.0), Fixed::max_value(), &mut rec));
    assert_eq!(rec.t, fx(6.0));
    assert!(!rec.front_face);
    assert!(!s.hit(&down_z(), fx(4.0), fx(6.0), &mut rec));
    assert!(s.hit(&down_z(), fx(3.5), fx(4.5), &mut rec));
    assert_eq!(rec.t, fx(4.0));
}

#[test]
fn ray_without_direction_hits_nothing() {
    let s = Sphere::new(v(0.0, 0.0, 0.0), fx(1.0), grey());
    let r = Ray::new(v(0.0, 0.0, 0.0), Vec3::zero());
    let mut rec = HitRecord::new_empty();
    assert!(!s.hit(&r, fx(0.001), Fixed::max_value(), &mut rec));
}

#[test]
fn negative_radius_turns_the_surface_inside_out() {
    let s = Sphere::new(v(0.0, 0.0, -5.0), fx(-1.0), glass());
    let mut rec = HitRecord::new_empty();
    assert!(s.hit(&down_z(), fx(0.001), Fixed::max_value(), &mut rec));
    assert_eq!(rec.t, fx(4.0));
    assert!(!rec.front_face);
    assert_eq!(rec.normal, v(0.0, 0.0, 1.0));
}

#[test]
fn hit_points_lie_on_the_sphere() {
    let centers = [v(0.0, 0.0, -5.0), v(1.0, -2.0, -7.5), v(0.0, -1000.0, 0.0)];
    let radii = [1.0, 2.5, 1000.0];
    let directions = [
        v(0.0, 0.0, -1.0),
        v(0.1, -0.2, -1.0),
        v(0.3, -0.6, -2.0),
        v(0.05, -0.9, -0.4),
        v(-0.1, -0.3, -3.0),
    ];
    let mut hits = 0;
    for k in 0..3 {
        let s = Sphere::new(centers[k], fx(radii[k]), grey());
        for d in directions {
            let r = Ray::new(v(0.0, 0.5, 1.0), d);
            let mut rec = HitRecord::new_empty();
            if s.hit(&r, fx(0.001), Fixed::max_value(), &mut rec) {
                hits += 1;
                let distance = as_f64(rec.p.sub(centers[k]).length());
                assert!((distance - radii[k]).abs() <= 1e-5 * radii[k].max(1.0));
                assert!(r.direction.dot(&rec.normal).raw() <= 0);
                assert!((as_f64(rec.normal.length()) - 1.0).abs() <= 1e-5);
            }
        }
    }
    assert!(hits >= 5);
}

#[test]
fn list_reports_the_closest_of_two_spheres() {
    let near = Sphere::new(v(0.0, 0.0, -6.0), fx(1.0), grey());
    let far = Sphere::new(v(0.0, 0.0, -11.0), fx(1.0), steel());
    for order in 0..2 {
        let mut world = HittableList::new();
        if order == 0 {
            world.add(near);
            world.add(far);
        } else {
            world.add(far);
            world.add(near);
        }
        let mut rec = HitRecord::new_empty();
        assert!(world.hit(&down_z(), fx(0.001), Fixed::max_value(), &mut rec));
        assert_eq!(rec.t, fx(5.0));
        assert_eq!(rec.p, v(0.0, 0.0, -5.0));
        assert_eq!(rec.mat_ptr, grey());
    }
}

#[test]
fn list_reports_the_far_sphere_when_the_near_one_is_out_of_range() {
    let mut world = HittableList::new();
    world.add(Sphere::new(v(0.0, 0.0, -6.0), fx(1.0), grey()));
    world.add(Sphere::new(v(0.0, 0.0, -11.0), fx(1.0), steel()));
    let mut rec = HitRecord::new_empty();
    assert!(world.hit(&down_z(), fx(8.0), Fixed::max_value(), &mut rec));
    assert_eq!(rec.t, fx(10.0));
    assert_eq!(rec.mat_ptr, steel());
}

#[test]
fn list_prefers_the_first_of_equal_hits() {
    let mut world = HittableList::new();
    world.add(Sphere::new(v(0.0, 0.0, -6.0), fx(1.0), steel()));
    world.add(Sphere::new(v(0.0, 0.0, -6.0), fx(1.0), grey()));
    let mut rec = HitRecord::new_empty();
    assert!(world.hit(&down_z(), fx(0.001), Fixed::max_value(), &mut rec));
    assert_eq!(rec.mat_ptr, steel());
}

#[test]
fn empty_list_reports_nothing() {
    let world = HittableList::new();
    assert_eq!(world.len(), 0);
    let mut rec = HitRecord::new_empty();
    rec.t = fx(2.0);
    let before = rec;
    assert!(!world.hit(&down_z(), fx(0.001), Fixed::max_value(), &mut rec));
    assert_eq!(rec, before);
}

#[test]
fn list_add_get_and_clear() {
    let mut world = HittableList::new();
    let a = Sphere::new(v(0.0, 0.0, -6.0), fx(1.0), grey());
    let b = Sphere::new(v(0.0, 1.0, -11.0), fx(2.0), steel());
    world.add(a);
    world.add(b);
    assert_eq!(world.len(), 2);
    assert_eq!(world.get(0), a);
    assert_eq!(world.get(1), b);
    world.clear();
    assert_eq!(world.len(), 0);
    let mut rec = HitRecord::new_empty();
    assert!(!world.hit(&down_z(), fx(0.001), Fixed::max_value(), &mut rec));
}

#[test]
fn sphere_new_keeps_its_arguments() {
    let s = Sphere::new(v(1.0, 2.0, 3.0), fx(0.5), steel());
    assert_eq!(s.center, v(1.0, 2.0, 3.0));
    assert_eq!(s.radius.raw(), ONE_RAW / 2);
    assert_eq!(s.mat_ptr, steel());
}

#[test]
fn ray_leaving_a_surface_does_not_hit_it_again() {
    let s = Sphere::new(v(0.0, 0.0, -1.0), fx(0.5), grey());
    let away = Ray::new(v(0.0, 0.0, -0.5), v(0.0, 0.0, 1.0));
    let mut rec = HitRecord::new_empty();
    assert!(!s.hit(&away, fx(0.001), Fixed::max_value(), &mut rec));
    let inward = Ray::new(v(0.0, 0.0, -0.5), v(0.0, 0.0, -1.0));
    assert!(s.hit(&inward, fx(0.001), Fixed::max_value(), &mut rec));
    assert_eq!(rec.t, fx(1.0));
    assert!(!rec.front_face);
    let grazing = Ray::new(v(0.0, 0.0, -0.5), v(0.0, 1.0, 0.0));
    assert!(!s.hit(&grazing, fx(0.001), Fixed::max_value(), &mut rec));
    assert!(s.hit(&away, fx(-0.001), Fixed::max_value(), &mut rec));
    assert_eq!(rec.t, fx(0.0));
}

#[test]
fn ordinary_hits_lie_on_the_sphere_within_the_tolerance() {
    let mut state: u64 = 0x2545_f491_4f6c_dd1d;
    let mut next = |low: f64, high: f64| {
        state ^= state << 13;
        state ^= state >> 7;
        state ^= state << 17;
        low + (high - low) * ((state >> 11) as f64 / (1u64 << 53) as f64)
    };
    let mut hits = 0;
    for _ in 0..4000 {
        let center = v(next(-8.0, 8.0), next(-8.0, 8.0), next(-8.0, 8.0));
        let radius = next(0.125, 8.0);
        let origin = v(next(-8.0, 8.0), next(-8.0, 8.0), next(-8.0, 8.0));
        let toward = center.sub(origin).add(v(
            next(-1.0, 1.0) * radius,
            next(-1.0, 1.0) * radius,
            next(-1.0, 1.0) * radius,
        ));
        let length = as_f64(toward.length());
        if length < 0.5 || length > 16.0 {
            continue;
        }
        let s = Sphere::new(center, fx(radius), grey());
        let r = Ray::new(origin, toward);
        let mut rec = HitRecord::new_empty();
        if s.hit(&r, fx(0.001), fx(32.0), &mut rec) {
            hits += 1;
            let distance = rec.p.sub(center).length().raw();
            assert!((distance - fx(radius).raw()).abs() <= 42949);
        }
    }
    assert!(hits > 1000);
}

#[test]
fn short_directions_hit_the_sphere_where_long_ones_do() {
    let s = Sphere::new(v(0.0, 0.0, -5.0), fx(1.0), grey());
    let mut rec = HitRecord::new_empty();
    let short = Ray::new(Vec3::zero(), Vec3::new(Fixed::zero(), Fixed::zero(), Fixed::from_raw(-80000)));
    assert!(s.hit(&short, fx(0.001), Fixed::max_value(), &mut rec));
    assert_eq!(rec.t.raw(), 922337203683328);
    assert_eq!((rec.p.x().raw(), rec.p.y().raw(), rec.p.z().raw()), (0, 0, -17179869183));
    assert_eq!(rec.normal.z().raw(), 4294967297);
    assert!(rec.front_face);
    let shorter = Ray::new(Vec3::zero(), Vec3::new(Fixed::zero(), Fixed::zero(), Fixed::from_raw(-4000)));
    assert!(s.hit(&shorter, fx(0.001), Fixed::max_value(), &mut rec));
    assert_eq!(rec.t.raw(), 18446744073273344);
    assert_eq!(rec.p.z().raw(), -17179869183);
    assert_eq!(rec.normal.z().raw(), 4294967297);
    let shortest = Ray::new(Vec3::zero(), Vec3::new(Fixed::zero(), Fixed::zero(), Fixed::from_raw(-1)));
    assert!(!s.hit(&shortest, fx(0.001), Fixed::max_value(), &mut rec));
    assert!(s.hit(&shortest, fx(0.001), fx(4.0e9), &mut rec) == false);
}

#[test]
fn hits_of_any_direction_length_lie_on_the_sphere() {
    let mut state: u64 = 0x0123_4567_89ab_cdef;
    let mut next = |low: f64, high: f64| {
        state ^= state << 13;
        state ^= state >> 7;
        state ^= state << 17;
        low + (high - low) * ((state >> 11) as f64 / (1u64 << 53) as f64)
    };
    let mut hits = 0;
    for round in 0..4000 {
        let center = v(next(-8.0, 8.0), next(-8.0, 8.0), next(-8.0, 8.0));
        let radius = next(0.125, 8.0);
        let origin = v(next(-8.0, 8.0), next(-8.0, 8.0), next(-8.0, 8.0));
        let toward = center.sub(origin).add(v(
            next(-1.0, 1.0) * radius,
            next(-1.0, 1.0) * radius,
            next(-1.0, 1.0) * radius,
        ));
        if as_f64(toward.length()) < 0.5 {
            continue;
        }
        let shrink = fx(2.0f64.powi(-(round % 28)));
        let direction = toward.unit_vector().scale(shrink);
        if direction == Vec3::zero() {
            continue;
        }
        let s = Sphere::new(center, fx(radius), grey());
        let r = Ray::new(origin, direction);
        let mut rec = HitRecord::new_empty();
        if s.hit(&r, fx(0.001), Fixed::max_value(), &mut rec) {
            hits += 1;
            let distance = rec.p.sub(center).length().raw();
            assert!((distance - fx(radius).raw()).abs() <= 42949, "{:?}", r);
            assert!((rec.normal.length().raw() - ONE_RAW).abs() <= 429496, "{:?}", r);
            assert!(r.direction.dot(&rec.normal).raw() <= 0);
        }
    }
    assert!(hits > 1000);
}
