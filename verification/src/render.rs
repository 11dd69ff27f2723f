//! The radiance estimator: the light that comes back along a ray.

use crate::fixed::{
    fx_add, fx_div, fx_mul, fx_sub, isqrt, lemma_fx_mul_bound, lemma_fx_mul_unit,
    lemma_isqrt_exists, limit, magnitude, scale, Fixed,
};
use crate::hittable::{HitModel, HitRecord, Hittable};
use crate::hittable_list::{
    lemma_scene_hit_is_member, scene_hit, scene_wf, HittableList,
};
use crate::material::{
    material_wf, scatter_possible, v3_white, Material, MaterialModel, ScatterModel,
};
use crate::ray::{Ray, RayModel};
use crate::sphere::{lemma_sphere_hit_valid, sphere_hit, SphereModel};
use crate::unit_length::{
    lemma_component_bound, lemma_grown, lemma_quotient_bracket, lemma_quotient_is_component,
    lemma_quotient_within,
};
use crate::vec3::{
    v3_add, v3_grown, v3_length, v3_mul, v3_normalized, v3_scale, v3_valid, v3_zero, Color,
    Point3, Vec3, V3,
};
use vstd::prelude::*;

verus! {

/// Raw value of the smallest ray parameter at which a hit counts: 4294967
/// units, just below 0.001. Hits nearer to the origin of a ray are taken for
/// the surface that the ray leaves.
pub const T_MIN_RAW: i64 = 4294967;

/// Raw value of one half.
pub const HALF_RAW: i64 = 0x8000_0000;

/// Raw value of the green part of the sky's blue: 3006477107 units, just
/// below 0.7.
pub const SKY_GREEN_RAW: i64 = 3006477107;

/// The blue of the sky at the zenith: `(0.5, 0.7, 1.0)`.
pub open spec fn sky_blue() -> V3 {
    V3 { x: HALF_RAW as int, y: SKY_GREEN_RAW as int, z: scale() }
}

/// Colour of the sky along a ray that hits nothing: white at the horizon
/// blended into blue at the zenith by `t = (y + 1) / 2`, where `y` is the
/// height of the normalized direction.
pub open spec fn background(r: RayModel) -> V3 {
    let unit_direction = v3_normalized(r.direction);
    let t = fx_mul(HALF_RAW as int, fx_add(unit_direction.y, scale()));
    v3_add(v3_scale(v3_white(), fx_sub(scale(), t)), v3_scale(sky_blue(), t))
}

/// Whether `c` is the light that comes back along a ray that hit the scene
/// at `h`, where scattering yields `out` and the scattered ray brings back
/// `inner`: the attenuated `inner` where light goes on, black where it does not.
pub open spec fn bounce_yields(r: RayModel, h: HitModel, out: ScatterModel, inner: V3, c: V3)
    -> bool {
    &&& scatter_possible(h.material, r, h, out)
    &&& c == if out.scattered {
        v3_mul(out.attenuation, inner)
    } else {
        v3_zero()
    }
}

/// Whether `c` can be the light that comes back along the ray `r` in the
/// scene, for some outcome of the random draws, when at most `depth` bounces
/// are followed.
///
/// With no bounce left the light is black. A ray that hits nothing between
/// the parameters 0.001 and the largest number sees the sky. A ray that hits a
/// surface is scattered by its material: where light goes on, what comes back
/// along the scattered ray with one bounce less is attenuated; where it does
/// not, the light is black.
pub open spec fn radiance_possible(r: RayModel, scene: Seq<SphereModel>, depth: int, c: V3) -> bool
    decreases depth,
{
    if depth <= 0 {
        c == v3_zero()
    } else {
        match scene_hit(scene, r, T_MIN_RAW as int, limit()) {
            None => c == background(r),
            Some(h) => exists|out: ScatterModel, inner: V3|
                #[trigger] bounce_yields(r, h, out, inner, c) && (out.scattered
                    ==> radiance_possible(out.ray, scene, depth - 1, inner)),
        }
    }
}

/// With no bounce left, only black comes back, whatever the scene holds.
pub proof fn lemma_radiance_exhausted(r: RayModel, scene: Seq<SphereModel>, depth: int, c: V3)
    requires
        depth <= 0,
        radiance_possible(r, scene, depth, c),
    ensures
        c == v3_zero(),
{
}

/// In a scene without spheres a ray brings back the colour of the sky and
/// nothing else.
pub proof fn lemma_radiance_empty_scene(r: RayModel, depth: int, c: V3)
    requires
        depth > 0,
    ensures
        radiance_possible(r, Seq::<SphereModel>::empty(), depth, c) <==> c == background(r),
{
    assert(scene_hit(Seq::<SphereModel>::empty(), r, T_MIN_RAW as int, limit()) is None);
}

/// What a bounce can bring back, a ray can bring back.
pub proof fn lemma_radiance_from_bounce(
    r: RayModel,
    scene: Seq<SphereModel>,
    depth: int,
    h: HitModel,
    out: ScatterModel,
    inner: V3,
    c: V3,
)
    requires
        depth > 0,
        scene_hit(scene, r, T_MIN_RAW as int, limit()) == Some(h),
        bounce_yields(r, h, out, inner, c),
        out.scattered ==> radiance_possible(out.ray, scene, depth - 1, inner),
    ensures
        radiance_possible(r, scene, depth, c),
{
}

/// Whether every component lies between zero and one.
pub open spec fn v3_in_unit(c: V3) -> bool {
    0 <= c.x <= scale() && 0 <= c.y <= scale() && 0 <= c.z <= scale()
}

/// Whether the colour of a material lies between black and white.
pub open spec fn albedo_in_unit(m: MaterialModel) -> bool {
    match m {
        MaterialModel::Lambertian { albedo } => v3_in_unit(albedo),
        MaterialModel::Metal { albedo, fuzz } => v3_in_unit(albedo),
        MaterialModel::Dielectric { ir } => true,
    }
}

/// Whether the colour of every material of the scene lies between black and
/// white.
pub open spec fn scene_albedo_in_unit(scene: Seq<SphereModel>) -> bool {
    forall|i: int| 0 <= i < scene.len() ==> albedo_in_unit(#[trigger] scene[i].material)
}

/// No component of a normalized vector exceeds one in magnitude.
pub proof fn lemma_normalized_within_one(a: V3)
    requires
        v3_valid(a),
    ensures
        magnitude(v3_normalized(a).x) <= scale(),
        magnitude(v3_normalized(a).y) <= scale(),
        magnitude(v3_normalized(a).z) <= scale(),
{
    lemma_grown(a);
    if v3_length(a) != 0 {
        let g = v3_grown(a);
        let gs = g.x * g.x + g.y * g.y + g.z * g.z;
        assert(0 <= g.x * g.x && 0 <= g.y * g.y && 0 <= g.z * g.z) by (nonlinear_arith);
        lemma_isqrt_exists(gs);
        let l = v3_length(g);
        lemma_component_bound(g.x, g.y * g.y + g.z * g.z, isqrt(gs));
        lemma_component_bound(g.y, g.x * g.x + g.z * g.z, isqrt(gs));
        lemma_component_bound(g.z, g.x * g.x + g.y * g.y, isqrt(gs));
        lemma_unit_component(g.x, l);
        lemma_unit_component(g.y, l);
        lemma_unit_component(g.z, l);
    }
}

/// A component of at most the length, divided by the length, is at most one.
proof fn lemma_unit_component(x: int, l: int)
    requires
        0 < l,
        magnitude(x) <= l,
    ensures
        magnitude(fx_div(x, l)) <= scale(),
{
    let k = scale();
    let a = lemma_quotient_bracket(magnitude(x), k, l);
    lemma_quotient_within(a, magnitude(x), k, l);
    lemma_quotient_is_component(x, l, a);
}

/// The colour of the sky lies between black and white.
pub proof fn lemma_background_in_unit(r: RayModel)
    requires
        v3_valid(r.direction),
    ensures
        v3_in_unit(background(r)),
{
    let k = scale();
    lemma_normalized_within_one(r.direction);
    let y = v3_normalized(r.direction).y;
    lemma_fx_mul_bound(HALF_RAW as int, fx_add(y, k), HALF_RAW as int, 2 * k);
    assert((HALF_RAW as int) * (2 * k) == 0x1_0000_0000_0000_0000);
    assert(0x1_0000_0000_0000_0000int / 0x1_0000_0000 == 0x1_0000_0000);
    let t = fx_mul(HALF_RAW as int, fx_add(y, k));
    assert(0 <= t <= k);
    lemma_fx_mul_unit(fx_sub(k, t));
    lemma_fx_mul_unit(t);
    lemma_fx_mul_bound(HALF_RAW as int, t, k, t);
    lemma_fx_mul_bound(SKY_GREEN_RAW as int, t, k, t);
    vstd::arithmetic::div_mod::lemma_div_by_multiple(t, k);
    assert(k * t == t * k) by (nonlinear_arith);
}

/// Whatever light comes back along a ray lies between black and white, in a
/// scene whose materials have colours between black and white.
pub proof fn lemma_radiance_in_unit(r: RayModel, scene: Seq<SphereModel>, depth: int, c: V3)
    requires
        v3_valid(r.direction),
        scene_albedo_in_unit(scene),
        radiance_possible(r, scene, depth, c),
    ensures
        v3_in_unit(c),
    decreases depth,
{
    let k = scale();
    if depth > 0 {
        match scene_hit(scene, r, T_MIN_RAW as int, limit()) {
            None => {
                lemma_background_in_unit(r);
            },
            Some(h) => {
                let (out, inner): (ScatterModel, V3) = choose|out: ScatterModel, inner: V3|
                    #[trigger] bounce_yields(r, h, out, inner, c) && (out.scattered
                        ==> radiance_possible(out.ray, scene, depth - 1, inner));
                if out.scattered {
                    lemma_scene_hit_is_member(scene, r, T_MIN_RAW as int, limit());
                    let i = choose|i: int|
                        0 <= i < scene.len() && #[trigger] sphere_hit(
                            scene[i],
                            r,
                            T_MIN_RAW as int,
                            limit(),
                        ) == scene_hit(scene, r, T_MIN_RAW as int, limit());
                    lemma_sphere_hit_valid(scene[i], r, T_MIN_RAW as int, limit());
                    assert(albedo_in_unit(h.material));
                    assert(v3_valid(h.normal));
                    lemma_attenuation_in_unit(h.material, r, h, out);
                    lemma_radiance_in_unit(out.ray, scene, depth - 1, inner);
                    lemma_fx_mul_bound(out.attenuation.x, inner.x, k, k);
                    lemma_fx_mul_bound(out.attenuation.y, inner.y, k, k);
                    lemma_fx_mul_bound(out.attenuation.z, inner.z, k, k);
                    assert(k * k / k == k);
                }
            },
        }
    }
}

/// The attenuation of a scatter event is the colour of the material, or
/// white for glass, and the scattered direction is the model of a vector.
pub proof fn lemma_attenuation_in_unit(
    m: MaterialModel,
    r_in: RayModel,
    rec: HitModel,
    out: ScatterModel,
)
    requires
        albedo_in_unit(m),
        v3_valid(rec.normal),
        scatter_possible(m, r_in, rec, out),
    ensures
        v3_in_unit(out.attenuation),
        v3_valid(out.ray.direction),
{
}

/// The material that a scene reports at a hit is well formed.
pub proof fn lemma_scene_hit_material(
    scene: Seq<SphereModel>,
    r: RayModel,
    t_min: int,
    t_max: int,
)
    requires
        scene_wf(scene),
        scene_hit(scene, r, t_min, t_max) is Some,
    ensures
        material_wf(scene_hit(scene, r, t_min, t_max).unwrap().material),
{
    lemma_scene_hit_is_member(scene, r, t_min, t_max);
    let i = choose|i: int|
        0 <= i < scene.len() && #[trigger] sphere_hit(scene[i], r, t_min, t_max) == scene_hit(
            scene,
            r,
            t_min,
            t_max,
        );
    lemma_sphere_hit_valid(scene[i], r, t_min, t_max);
}

/// Colour of the sky along a ray.
pub fn sky_color(r: &Ray) -> (c: Color)
    ensures
        c@ == background(r@),
{
    let one = Fixed::one();
    let unit_direction = r.direction.normalized();
    let t = Fixed::from_raw(HALF_RAW).mul(unit_direction.y().add(one));
    let white = Color::new(one, one, one);
    let blue = Color::new(Fixed::from_raw(HALF_RAW), Fixed::from_raw(SKY_GREEN_RAW), one);
    white.scale(one.sub(t)).add(blue.scale(t))
}

/// The light that comes back along the ray `r` in the scene `world`, following
/// at most `depth` bounces. It lies between black and white where the colours
/// of the materials do.
pub fn ray_color(r: &Ray, world: &HittableList, depth: i32) -> (c: Color)
    requires
        world.wf(),
    ensures
        radiance_possible(r@, world@, depth as int, c@),
        depth <= 0 ==> c@ == v3_zero(),
        depth > 0 && world@.len() == 0 ==> c@ == background(r@),
        scene_albedo_in_unit(world@) ==> v3_in_unit(c@),
{
    let c = trace(r, world, depth);
    proof {
        r.direction.lemma_valid();
        if scene_albedo_in_unit(world@) {
            lemma_radiance_in_unit(r@, world@, depth as int, c@);
        }
    }
    c
}

/// The light that comes back along the ray, by following it from bounce to
/// bounce.
fn trace(r: &Ray, world: &HittableList, depth: i32) -> (c: Color)
    requires
        world.wf(),
    ensures
        radiance_possible(r@, world@, depth as int, c@),
        depth <= 0 ==> c@ == v3_zero(),
        depth > 0 && world@.len() == 0 ==> c@ == background(r@),
    decreases depth,
{
    if depth <= 0 {
        return Color::zero();
    }
    let mut rec = HitRecord::new_empty();
    if world.hit(r, Fixed::from_raw(T_MIN_RAW), Fixed::max_value(), &mut rec) {
        let mut scattered = Ray::new(Point3::zero(), Vec3::zero());
        let mut attenuation = Color::zero();

        let mat_ptr = rec.mat_ptr;
        let ghost h = rec@;
        proof {
            lemma_scene_hit_material(world@, r@, T_MIN_RAW as int, limit());
        }
        if mat_ptr.scatter(r, &mut rec, &mut attenuation, &mut scattered) {
            let inner = trace(&scattered, world, depth - 1);
            let c = attenuation.mul(inner);
            proof {
                let out = ScatterModel {
                    scattered: true,
                    attenuation: attenuation@,
                    ray: scattered@,
                };
                lemma_radiance_from_bounce(r@, world@, depth as int, h, out, inner@, c@);
            }
            return c;
        }
        proof {
            let out = ScatterModel {
                scattered: false,
                attenuation: attenuation@,
                ray: scattered@,
            };
            lemma_radiance_from_bounce(
                r@,
                world@,
                depth as int,
                h,
                out,
                v3_zero(),
                v3_zero(),
            );
        }
        return Color::zero();
    }
    sky_color(r)
}

} // verus!
