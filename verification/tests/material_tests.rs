use raytracer::fixed::{Fixed, ONE_RAW};
use raytracer::hittable::HitRecord;
use raytracer::material::{Dielectric, Lambertian, Material, MaterialKind, Metal};
use raytracer::ray::Ray;
use raytracer::vec3::Vec3;

fn fx(x: f64) -> Fixed {
    Fixed::from_raw((x * 4294967296.0).round() as i64)
}

fn v(x: f64, y: f64, z: f64) -> Vec3 {
    Vec3::new(fx(x), fx(y), fx(z))
}

fn raws(a: Vec3) -> (i64, i64, i64) {
    (a.x().raw(), a.y().raw(), a.z().raw())
}

fn record(p: Vec3, normal: Vec3, front_face: bool) -> HitRecord {
    let mut rec = HitRecord::new_empty();
    rec.p = p;
    rec.normal = normal;
    rec.t = fx(1.0);
    rec.front_face = front_face;
    rec
}

fn floor_hit(front_face: bool) -> HitRecord {
    record(v(1.0, 0.0, 2.0), v(0.0, 1.0, 0.0), front_face)
}

#[test]
fn lambertian_scatters_along_normal_plus_unit() {
    let m = Lambertian::new(v(0.8, 0.3, 0.1));
    let (attenuation, scattered) = m.scatter_with(&floor_hit(true), v(1.0, 0.0, 0.0));
    assert_eq!(attenuation, v(0.8, 0.3, 0.1));
    assert_eq!(scattered.origin, v(1.0, 0.0, 2.0));
    assert_eq!(scattered.direction, v(1.0, 1.0, 0.0));
}

#[test]
fn lambertian_falls_back_to_the_normal() {
    let m = Lambertian::new(v(0.8, 0.3, 0.1));
    let (_, scattered) = m.scatter_with(&floor_hit(true), v(0.0, -1.0, 0.0));
    assert_eq!(scattered.direction, v(0.0, 1.0, 0.0));
    let almost = Vec3::new(Fixed::from_raw(42), fx(-1.0), Fixed::from_raw(-42));
    let (_, scattered) = m.scatter_with(&floor_hit(true), almost);
    assert_eq!(scattered.direction, v(0.0, 1.0, 0.0));
    let apart = Vec3::new(Fixed::from_raw(43), fx(-1.0), Fixed::zero());
    let (_, scattered) = m.scatter_with(&floor_hit(true), apart);
    assert_eq!(raws(scattered.direction), (43, 0, 0));
}

#[test]
fn lambertian_always_scatters() {
    let m = Lambertian::new(v(0.5, 0.5, 0.5));
    let r_in = Ray::new(v(1.0, 1.0, 2.0), v(0.0, -1.0, 0.0));
    for _ in 0..100 {
        let mut rec = floor_hit(true);
        let mut attenuation = Vec3::zero();
        let mut scattered = Ray::new(Vec3::zero(), Vec3::zero());
        assert!(m.scatter(&r_in, &mut rec, &mut attenuation, &mut scattered));
        assert_eq!(rec, floor_hit(true));
        assert_eq!(attenuation, v(0.5, 0.5, 0.5));
        assert_eq!(scattered.origin, v(1.0, 0.0, 2.0));
        assert!(!scattered.direction.near_zero());
        assert!(scattered.direction.y().raw() >= -2);
    }
}

#[test]
fn metal_clamps_its_fuzz() {
    assert_eq!(Metal::new(v(0.5, 0.5, 0.5), fx(0.3)).fuzz, fx(0.3));
    assert_eq!(Metal::new(v(0.5, 0.5, 0.5), fx(2.0)).fuzz, fx(1.0));
    assert_eq!(Metal::new(v(0.5, 0.5, 0.5), fx(-0.5)).fuzz, fx(0.0));
    assert_eq!(Metal::new(v(0.7, 0.6, 0.5), fx(1.0)).albedo, v(0.7, 0.6, 0.5));
}

#[test]
fn polished_metal_mirrors_the_ray() {
    let m = Metal::new(v(0.7, 0.6, 0.5), fx(0.0));
    let r_in = Ray::new(v(0.0, 1.0, 2.0), v(2.0, -2.0, 0.0));
    let (goes_on, attenuation, scattered) = m.scatter_with(&r_in, &floor_hit(true), v(0.3, 0.2, 0.1));
    assert!(goes_on);
    assert_eq!(attenuation, v(0.7, 0.6, 0.5));
    assert_eq!(scattered.origin, v(1.0, 0.0, 2.0));
    assert_eq!(raws(scattered.direction), (3037000500, 3037000500, 0));
}

#[test]
fn rough_metal_perturbs_the_mirrored_ray() {
    let m = Metal::new(v(0.7, 0.6, 0.5), fx(0.5));
    let r_in = Ray::new(v(0.0, 1.0, 2.0), v(1.0, -1.0, 0.0));
    let (goes_on, _, scattered) = m.scatter_with(&r_in, &floor_hit(true), v(0.5, 0.0, 0.25));
    assert!(goes_on);
    assert_eq!(raws(scattered.direction), (4110742324, 3037000500, 536870912));
}

#[test]
fn metal_absorbs_rays_scattered_into_the_surface() {
    let m = Metal::new(v(0.7, 0.6, 0.5), fx(1.0));
    let r_in = Ray::new(v(0.0, 1.0, 2.0), v(1.0, -1.0, 0.0));
    let (goes_on, attenuation, scattered) = m.scatter_with(&r_in, &floor_hit(true), v(0.0, -1.0, 0.0));
    assert!(!goes_on);
    assert_eq!(attenuation, v(0.7, 0.6, 0.5));
    assert_eq!(raws(scattered.direction), (3037000500, -1257966796, 0));
}

#[test]
fn metal_scatter_draws_within_the_fuzz() {
    let m = Metal::new(v(0.7, 0.6, 0.5), fx(0.25));
    let r_in = Ray::new(v(1.0, 1.0, 2.0), v(0.0, -1.0, 0.0));
    for _ in 0..100 {
        let mut rec = floor_hit(true);
        let mut attenuation = Vec3::zero();
        let mut scattered = Ray::new(Vec3::zero(), Vec3::zero());
        assert!(m.scatter(&r_in, &mut rec, &mut attenuation, &mut scattered));
        assert_eq!(attenuation, v(0.7, 0.6, 0.5));
        assert_eq!(scattered.origin, v(1.0, 0.0, 2.0));
        let off = scattered.direction.sub(v(0.0, 1.0, 0.0));
        assert!(off.length().raw() <= ONE_RAW / 4 + 4);
    }
}

#[test]
fn reflectance_at_the_ends() {
    for ior in [1.0, 1.3, 1.5, 2.4, 10.0] {
        let head_on = Dielectric::reflectance(fx(1.0), fx(ior));
        let base = (1.0 - ior) / (1.0 + ior);
        assert!((head_on.raw() as f64 / 4294967296.0 - base * base).abs() <= 1e-8);
        assert_eq!(Dielectric::reflectance(fx(0.0), fx(ior)).raw(), ONE_RAW);
    }
    assert_eq!(Dielectric::reflectance(fx(1.0), fx(1.5)).raw(), 171798691);
    assert_eq!(Dielectric::reflectance(fx(0.0), fx(0.0)).raw(), ONE_RAW);
    assert_eq!(Dielectric::reflectance(fx(1.0), fx(0.0)).raw(), ONE_RAW);
}

#[test]
fn reflectance_between_the_ends() {
    assert_eq!(Dielectric::reflectance(fx(0.5), fx(1.5)).raw(), 300647709);
}

#[test]
fn dielectric_refracts_a_head_on_ray() {
    let m = Dielectric::new(fx(1.5));
    let r_in = Ray::new(v(1.0, 1.0, 2.0), v(0.0, -3.0, 0.0));
    let (attenuation, scattered) = m.scatter_with(&r_in, &floor_hit(true), fx(0.5));
    assert_eq!(attenuation, v(1.0, 1.0, 1.0));
    assert_eq!(scattered.origin, v(1.0, 0.0, 2.0));
    assert_eq!(raws(scattered.direction), (0, -ONE_RAW, 0));
}

#[test]
fn dielectric_reflects_when_the_draw_is_below_the_reflectance() {
    let m = Dielectric::new(fx(1.5));
    let r_in = Ray::new(v(1.0, 1.0, 2.0), v(0.0, -3.0, 0.0));
    let (attenuation, scattered) = m.scatter_with(&r_in, &floor_hit(true), fx(0.01));
    assert_eq!(attenuation, v(1.0, 1.0, 1.0));
    assert_eq!(raws(scattered.direction), (0, ONE_RAW, 0));
}

#[test]
fn dielectric_reflects_totally_from_inside() {
    let m = Dielectric::new(fx(1.5));
    let r_in = Ray::new(v(0.0, 1.0, 2.0), v(1.0, -1.0, 0.0));
    let (_, scattered) = m.scatter_with(&r_in, &floor_hit(false), fx(0.999));
    assert_eq!(raws(scattered.direction), (3037000500, 3037000500, 0));
    let (_, entering) = m.scatter_with(&r_in, &floor_hit(true), fx(0.999));
    assert_eq!(raws(entering.direction), (2024666999, -3787805119, 0));
}

#[test]
fn dielectric_bends_away_from_the_normal_when_leaving() {
    let m = Dielectric::new(fx(1.5));
    let r_in = Ray::new(v(0.0, 1.0, 2.0), v(1.0, -2.0, 0.0));
    let (_, scattered) = m.scatter_with(&r_in, &floor_hit(false), fx(0.999));
    assert_eq!(raws(scattered.direction), (2881151650, -3185232997, 0));
}

#[test]
fn dielectric_scatter_is_white_and_goes_on() {
    let m = MaterialKind::Dielectric(Dielectric::new(fx(1.5)));
    let r_in = Ray::new(v(1.0, 1.0, 2.0), v(0.0, -1.0, 0.0));
    let mut refracted = 0;
    let mut reflected = 0;
    for _ in 0..400 {
        let mut rec = floor_hit(true);
        let mut attenuation = Vec3::zero();
        let mut scattered = Ray::new(Vec3::zero(), Vec3::zero());
        assert!(m.scatter(&r_in, &mut rec, &mut attenuation, &mut scattered));
        assert_eq!(attenuation, v(1.0, 1.0, 1.0));
        assert_eq!(scattered.origin, v(1.0, 0.0, 2.0));
        if scattered.direction == v(0.0, -1.0, 0.0) {
            refracted += 1;
        } else {
            assert_eq!(scattered.direction, v(0.0, 1.0, 0.0));
            reflected += 1;
        }
    }
    assert!(refracted > 300);
    assert_eq!(refracted + reflected, 400);
}

#[test]
fn material_kind_dispatches_to_its_variant() {
    let r_in = Ray::new(v(0.0, 1.0, 2.0), v(1.0, -1.0, 0.0));
    let mirror = MaterialKind::Metal(Metal::new(v(0.9, 0.9, 0.9), fx(0.0)));
    let mut rec = floor_hit(true);
    let mut attenuation = Vec3::zero();
    let mut scattered = Ray::new(Vec3::zero(), Vec3::zero());
    assert!(mirror.scatter(&r_in, &mut rec, &mut attenuation, &mut scattered));
    assert_eq!(attenuation, v(0.9, 0.9, 0.9));
    assert_eq!(raws(scattered.direction), (3037000500, 3037000500, 0));
    let matte = MaterialKind::Lambertian(Lambertian::new(v(0.1, 0.2, 0.3)));
    assert!(matte.scatter(&r_in, &mut rec, &mut attenuation, &mut scattered));
    assert_eq!(attenuation, v(0.1, 0.2, 0.3));
}

#[test]
fn glass_scatters_a_short_incoming_direction_with_length_one() {
    let m = Dielectric::new(fx(1.5));
    let short = Vec3::new(Fixed::from_raw(2), Fixed::from_raw(-2), Fixed::zero());
    let r_in = Ray::new(v(0.0, 1.0, 2.0), short);
    let (_, scattered) = m.scatter_with(&r_in, &floor_hit(true), fx(0.0));
    assert_eq!(raws(scattered.direction), (3037000500, 3037000500, 0));
    assert_eq!(scattered.direction.length().raw(), ONE_RAW);
    let (_, passed) = m.scatter_with(&r_in, &floor_hit(true), fx(0.999));
    assert_eq!(raws(passed.direction), (2024666999, -3787805119, 0));
    let mirror = Metal::new(v(0.7, 0.6, 0.5), fx(0.0));
    let (goes_on, _, mirrored) = mirror.scatter_with(&r_in, &floor_hit(true), Vec3::zero());
    assert!(goes_on);
    assert_eq!(raws(mirrored.direction), (3037000500, 3037000500, 0));
}
