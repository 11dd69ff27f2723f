//! Surface materials and how they scatter light.

use crate::fixed::{
    fx_add, fx_div, fx_max, fx_min, fx_mul, fx_neg, fx_sqrt, fx_sub, lemma_fx_mul_unit,
    lemma_fx_square_nonnegative, magnitude, scale, Fixed,
};
use crate::hittable::{HitModel, HitRecord};
use crate::random::random_fraction;
use crate::ray::{Ray, RayModel};
use crate::vec3::{
    in_unit_sphere, v3_add, v3_dot, v3_length_squared, v3_near_zero, v3_neg, v3_normalized,
    v3_reflect, v3_scale, Color, Vec3, V3,
};
use vstd::prelude::*;

verus! {

/// Model of a material.
pub enum MaterialModel {
    Lambertian { albedo: V3 },
    Metal { albedo: V3, fuzz: int },
    Dielectric { ir: int },
}

/// What a scatter event yields: whether light goes on, how it is attenuated,
/// and the ray along which it goes on.
pub struct ScatterModel {
    pub scattered: bool,
    pub attenuation: V3,
    pub ray: RayModel,
}

/// White.
pub open spec fn v3_white() -> V3 {
    V3 { x: scale(), y: scale(), z: scale() }
}

/// Diffuse scattering for the random direction `unit`: the new direction is
/// the normal plus `unit`, or the normal alone where that sum nearly vanishes.
pub open spec fn lambertian_scatter(albedo: V3, rec: HitModel, unit: V3) -> ScatterModel {
    let sum = v3_add(rec.normal, unit);
    let direction = if v3_near_zero(sum) {
        rec.normal
    } else {
        sum
    };
    ScatterModel {
        scattered: true,
        attenuation: albedo,
        ray: RayModel { origin: rec.p, direction },
    }
}

/// Reflective scattering for the random point `sample` of the unit sphere: the
/// normalized incoming direction is mirrored about the normal and perturbed by
/// `fuzz * sample`. Light goes on only where the new direction leaves the
/// surface.
pub open spec fn metal_scatter(
    albedo: V3,
    fuzz: int,
    r_in: RayModel,
    rec: HitModel,
    sample: V3,
) -> ScatterModel {
    let reflected = v3_reflect(v3_normalized(r_in.direction), rec.normal);
    let direction = v3_add(reflected, v3_scale(sample, fuzz));
    ScatterModel {
        scattered: v3_dot(direction, rec.normal) > 0,
        attenuation: albedo,
        ray: RayModel { origin: rec.p, direction },
    }
}

/// Fifth power.
pub open spec fn fx_pow5(x: int) -> int {
    let x2 = fx_mul(x, x);
    fx_mul(fx_mul(x2, x2), x)
}

/// Reflectance at normal incidence for the refractive index `ref_idx`:
/// `((1 - ref_idx) / (1 + ref_idx))^2`.
pub open spec fn reflectance_at_normal(ref_idx: int) -> int {
    let q = fx_div(fx_sub(scale(), ref_idx), fx_add(scale(), ref_idx));
    fx_mul(q, q)
}

/// Schlick's approximation of the reflectance at the angle whose cosine is
/// `cosine`: `r0 + (1 - r0) (1 - cosine)^5`.
pub open spec fn reflectance(cosine: int, ref_idx: int) -> int {
    let r0 = reflectance_at_normal(ref_idx);
    fx_add(r0, fx_mul(fx_sub(scale(), r0), fx_pow5(fx_sub(scale(), cosine))))
}

/// Schlick's approximation at its two ends, for every refractive index: for a
/// ray along the normal, whose cosine is one, it is the reflectance at normal
/// incidence; for a grazing ray, whose cosine is zero, it is one.
pub proof fn lemma_reflectance_ends(ref_idx: int)
    ensures
        reflectance(scale(), ref_idx) == reflectance_at_normal(ref_idx),
        reflectance(0, ref_idx) == scale(),
{
    let q = fx_div(fx_sub(scale(), ref_idx), fx_add(scale(), ref_idx));
    let r0 = reflectance_at_normal(ref_idx);
    lemma_fx_square_nonnegative(q);
    let rest = fx_sub(scale(), r0);
    lemma_fx_mul_unit(rest);
    lemma_fx_mul_unit(0);
    lemma_fx_mul_unit(scale());
    assert(fx_pow5(0) == 0);
    assert(fx_pow5(scale()) == scale());
}

/// Direction of the ray refracted by Snell's law, for the unit direction `uv`,
/// the normal `n` and the ratio of the refractive indices.
pub open spec fn v3_refract(uv: V3, n: V3, ratio: int) -> V3 {
    let cos_theta = fx_min(v3_dot(v3_neg(uv), n), scale());
    let perp = v3_scale(v3_add(uv, v3_scale(n, cos_theta)), ratio);
    let parallel = v3_scale(
        n,
        fx_neg(fx_sqrt(magnitude(fx_sub(scale(), v3_length_squared(perp))))),
    );
    v3_add(perp, parallel)
}

/// Ratio of the refractive indices for a ray that enters (`front_face`) or
/// leaves a body of index `ir`.
pub open spec fn refraction_ratio(ir: int, front_face: bool) -> int {
    if front_face {
        fx_div(scale(), ir)
    } else {
        ir
    }
}

/// Cosine of the angle between the reversed unit direction and the normal,
/// capped at one.
pub open spec fn incidence_cosine(unit_direction: V3, normal: V3) -> int {
    fx_min(fx_neg(v3_dot(unit_direction, normal)), scale())
}

/// Sine that belongs to the cosine `cos_theta`.
pub open spec fn incidence_sine(cos_theta: int) -> int {
    fx_sqrt(fx_max(fx_sub(scale(), fx_mul(cos_theta, cos_theta)), 0))
}

/// Whether a ray is reflected rather than refracted: always under total
/// internal reflection, else where the reflectance exceeds `chance`.
pub open spec fn dielectric_reflects(ir: int, r_in: RayModel, rec: HitModel, chance: int) -> bool {
    let ratio = refraction_ratio(ir, rec.front_face);
    let cos_theta = incidence_cosine(v3_normalized(r_in.direction), rec.normal);
    fx_mul(ratio, incidence_sine(cos_theta)) > scale() || reflectance(cos_theta, ir) > chance
}

/// Refractive scattering for the random number `chance` of `[0, 1)`.
pub open spec fn dielectric_scatter(ir: int, r_in: RayModel, rec: HitModel, chance: int)
    -> ScatterModel {
    let unit_direction = v3_normalized(r_in.direction);
    let direction = if dielectric_reflects(ir, r_in, rec, chance) {
        v3_reflect(unit_direction, rec.normal)
    } else {
        v3_refract(unit_direction, rec.normal, refraction_ratio(ir, rec.front_face))
    };
    ScatterModel {
        scattered: true,
        attenuation: v3_white(),
        ray: RayModel { origin: rec.p, direction },
    }
}

/// Whether `out` is a possible result of scattering the ray `r_in` at the hit
/// `rec` on the material `m`, for some outcome of the random draw.
pub open spec fn scatter_possible(m: MaterialModel, r_in: RayModel, rec: HitModel, out: ScatterModel)
    -> bool {
    match m {
        MaterialModel::Lambertian { albedo } => exists|p: V3|
            #[trigger] in_unit_sphere(p) && out == lambertian_scatter(
                albedo,
                rec,
                v3_normalized(p),
            ),
        MaterialModel::Metal { albedo, fuzz } => exists|p: V3|
            #[trigger] in_unit_sphere(p) && out == metal_scatter(albedo, fuzz, r_in, rec, p),
        MaterialModel::Dielectric { ir } => exists|chance: int|
            0 <= chance < scale() && out == #[trigger] dielectric_scatter(
                ir,
                r_in,
                rec,
                chance,
            ),
    }
}

/// What refractive scattering yields for a number of `[0, 1)` is a possible
/// result.
pub proof fn lemma_dielectric_possible(
    ir: int,
    r_in: RayModel,
    rec: HitModel,
    chance: int,
    out: ScatterModel,
)
    requires
        0 <= chance < scale(),
        out == dielectric_scatter(ir, r_in, rec, chance),
    ensures
        scatter_possible(MaterialModel::Dielectric { ir }, r_in, rec, out),
{
    let m = MaterialModel::Dielectric { ir };
    assert(m->ir == ir);
    assert(scatter_possible(m, r_in, rec, out) == (exists|c: int|
        0 <= c < scale() && out == #[trigger] dielectric_scatter(ir, r_in, rec, c)));
}

/// A material: decides whether and how light scatters at a hit.
pub trait Material {
    /// Whether the material is well formed.
    spec fn wf(&self) -> bool;

    /// Model of the material.
    spec fn model(&self) -> MaterialModel;

    /// Scatters the ray `r_in` at the hit `rec`. The attenuation and the new
    /// ray are written to `attenuation` and `scattered`; the result says
    /// whether light goes on along the new ray.
    fn scatter(
        &self,
        r_in: &Ray,
        rec: &mut HitRecord,
        attenuation: &mut Color,
        scattered: &mut Ray,
    ) -> (goes_on: bool)
        requires
            self.wf(),
        ensures
            *final(rec) == *old(rec),
            scatter_possible(
                self.model(),
                r_in@,
                old(rec)@,
                ScatterModel {
                    scattered: goes_on,
                    attenuation: final(attenuation)@,
                    ray: final(scattered)@,
                },
            ),
    ;
}

/// A diffuse material.
#[derive(Clone, Copy, Debug, PartialEq, Eq)]
pub struct Lambertian {
    pub albedo: Color,
}

/// A reflective material. `fuzz` is the roughness, between zero (a perfect
/// mirror) and one.
#[derive(Clone, Copy, Debug, PartialEq, Eq)]
pub struct Metal {
    pub albedo: Color,
    pub fuzz: Fixed,
}

/// A refractive material with the refractive index `ir`.
#[derive(Clone, Copy, Debug, PartialEq, Eq)]
pub struct Dielectric {
    pub ir: Fixed,
}

/// One of the three materials.
#[derive(Clone, Copy, Debug, PartialEq, Eq)]
pub enum MaterialKind {
    Lambertian(Lambertian),
    Metal(Metal),
    Dielectric(Dielectric),
}

impl View for MaterialKind {
    type V = MaterialModel;

    open spec fn view(&self) -> MaterialModel {
        match *self {
            MaterialKind::Lambertian(m) => MaterialModel::Lambertian { albedo: m.albedo@ },
            MaterialKind::Metal(m) => MaterialModel::Metal { albedo: m.albedo@, fuzz: m.fuzz@ },
            MaterialKind::Dielectric(m) => MaterialModel::Dielectric { ir: m.ir@ },
        }
    }
}

/// Whether a material model is well formed: a refractive index is positive.
pub open spec fn material_wf(m: MaterialModel) -> bool {
    match m {
        MaterialModel::Dielectric { ir } => ir > 0,
        _ => true,
    }
}

impl Lambertian {
    /// The diffuse material of the given colour.
    pub fn new(albedo: Color) -> (m: Lambertian)
        ensures
            m == (Lambertian { albedo }),
    {
        Lambertian { albedo }
    }

    /// Scatters at the hit `rec` for the random direction `unit`.
    pub fn scatter_with(&self, rec: &HitRecord, unit: Vec3) -> (out: (Color, Ray))
        ensures
            lambertian_scatter(self.albedo@, rec@, unit@) == (ScatterModel {
                scattered: true,
                attenuation: out.0@,
                ray: out.1@,
            }),
    {
        let mut scatter_direction = rec.normal.add(unit);
        if scatter_direction.near_zero() {
            scatter_direction = rec.normal;
        }
        (self.albedo, Ray::new(rec.p, scatter_direction))
    }
}

impl Material for Lambertian {
    open spec fn wf(&self) -> bool {
        true
    }

    open spec fn model(&self) -> MaterialModel {
        MaterialModel::Lambertian { albedo: self.albedo@ }
    }

    fn scatter(
        &self,
        r_in: &Ray,
        rec: &mut HitRecord,
        attenuation: &mut Color,
        scattered: &mut Ray,
    ) -> (goes_on: bool) {
        let unit = Vec3::random_unit_vector();
        let out = self.scatter_with(rec, unit);
        *attenuation = out.0;
        *scattered = out.1;
        true
    }
}

impl Metal {
    /// The reflective material of the given colour; `fuzz` is clamped to
    /// `[0, 1]`.
    pub fn new(albedo: Color, fuzz: Fixed) -> (m: Metal)
        ensures
            m.albedo == albedo,
            m.fuzz@ == fx_max(fx_min(fuzz@, scale()), 0),
    {
        Metal { albedo, fuzz: fuzz.min(Fixed::one()).max(Fixed::zero()) }
    }

    /// Scatters the ray `r_in` at the hit `rec` for the random point `sample`
    /// of the unit sphere.
    pub fn scatter_with(&self, r_in: &Ray, rec: &HitRecord, sample: Vec3) -> (out: (
        bool,
        Color,
        Ray,
    ))
        ensures
            metal_scatter(self.albedo@, self.fuzz@, r_in@, rec@, sample@) == (ScatterModel {
                scattered: out.0,
                attenuation: out.1@,
                ray: out.2@,
            }),
    {
        let reflected = r_in.direction.normalized().reflect(&rec.normal);
        let scattered = Ray::new(rec.p, reflected.add(sample.scale(self.fuzz)));
        let goes_on = Fixed::zero().lt(scattered.direction.dot(&rec.normal));
        (goes_on, self.albedo, scattered)
    }
}

impl Material for Metal {
    open spec fn wf(&self) -> bool {
        true
    }

    open spec fn model(&self) -> MaterialModel {
        MaterialModel::Metal { albedo: self.albedo@, fuzz: self.fuzz@ }
    }

    fn scatter(
        &self,
        r_in: &Ray,
        rec: &mut HitRecord,
        attenuation: &mut Color,
        scattered: &mut Ray,
    ) -> (goes_on: bool) {
        let sample = Vec3::random_in_unit_sphere();
        let out = self.scatter_with(r_in, rec, sample);
        *attenuation = out.1;
        *scattered = out.2;
        out.0
    }
}

impl Vec3 {
    /// Direction of the ray refracted by Snell's law, for the unit direction
    /// `self`, the normal `n` and the ratio of the refractive indices.
    pub fn refract(&self, n: &Vec3, ratio: Fixed) -> (r: Vec3)
        ensures
            r@ == v3_refract(self@, n@, ratio@),
    {
        let cos_theta = self.neg().dot(n).min(Fixed::one());
        let perp = self.add(n.scale(cos_theta)).scale(ratio);
        let parallel = n.scale(Fixed::one().sub(perp.length_squared()).abs().sqrt().neg());
        perp.add(parallel)
    }
}

impl Dielectric {
    /// The refractive material of index `ir`, which must be positive.
    pub fn new(ir: Fixed) -> (m: Dielectric)
        requires
            ir@ > 0,
        ensures
            m == (Dielectric { ir }),
    {
        Dielectric { ir }
    }

    /// Schlick's approximation of the reflectance at the angle whose cosine is
    /// `cosine`, for the refractive index `ref_idx`, which must not be minus
    /// one.
    pub fn reflectance(cosine: Fixed, ref_idx: Fixed) -> (r: Fixed)
        requires
            fx_add(scale(), ref_idx@) != 0,
        ensures
            r@ == reflectance(cosine@, ref_idx@),
    {
        let one = Fixed::one();
        let q = one.sub(ref_idx).div(one.add(ref_idx));
        let r0 = q.mul(q);
        let x = one.sub(cosine);
        let x2 = x.mul(x);
        r0.add(one.sub(r0).mul(x2.mul(x2).mul(x)))
    }

    /// Scatters the ray `r_in` at the hit `rec` for the random number `chance`
    /// of `[0, 1)`.
    pub fn scatter_with(&self, r_in: &Ray, rec: &HitRecord, chance: Fixed) -> (out: (Color, Ray))
        requires
            self.ir@ > 0,
        ensures
            dielectric_scatter(self.ir@, r_in@, rec@, chance@) == (ScatterModel {
                scattered: true,
                attenuation: out.0@,
                ray: out.1@,
            }),
    {
        let one = Fixed::one();
        let ratio = if rec.front_face {
            one.div(self.ir)
        } else {
            self.ir
        };
        let unit_direction = r_in.direction.normalized();
        let cos_theta = unit_direction.dot(&rec.normal).neg().min(one);
        let sin_theta = one.sub(cos_theta.mul(cos_theta)).max(Fixed::zero()).sqrt();
        let cannot_refract = one.lt(ratio.mul(sin_theta));
        let direction = if cannot_refract || chance.lt(
            Dielectric::reflectance(cos_theta, self.ir),
        ) {
            unit_direction.reflect(&rec.normal)
        } else {
            unit_direction.refract(&rec.normal, ratio)
        };
        (Color::new(one, one, one), Ray::new(rec.p, direction))
    }
}

impl Material for Dielectric {
    open spec fn wf(&self) -> bool {
        self.ir@ > 0
    }

    open spec fn model(&self) -> MaterialModel {
        MaterialModel::Dielectric { ir: self.ir@ }
    }

    fn scatter(
        &self,
        r_in: &Ray,
        rec: &mut HitRecord,
        attenuation: &mut Color,
        scattered: &mut Ray,
    ) -> (goes_on: bool) {
        let chance = random_fraction();
        let out = self.scatter_with(r_in, rec, chance);
        *attenuation = out.0;
        *scattered = out.1;
        proof {
            let result = ScatterModel { scattered: true, attenuation: out.0@, ray: out.1@ };
            assert(0 <= chance@ < scale() && result == dielectric_scatter(
                self.ir@,
                r_in@,
                rec@,
                chance@,
            ));
            lemma_dielectric_possible(self.ir@, r_in@, rec@, chance@, result);
        }
        true
    }
}

impl MaterialKind {
    /// Whether the material is well formed.
    pub fn is_valid(&self) -> (r: bool)
        ensures
            r == material_wf(self@),
    {
        match self {
            MaterialKind::Dielectric(m) => Fixed::zero().lt(m.ir),
            _ => true,
        }
    }
}

impl Material for MaterialKind {
    open spec fn wf(&self) -> bool {
        material_wf(self@)
    }

    open spec fn model(&self) -> MaterialModel {
        self@
    }

    fn scatter(
        &self,
        r_in: &Ray,
        rec: &mut HitRecord,
        attenuation: &mut Color,
        scattered: &mut Ray,
    ) -> (goes_on: bool) {
        match self {
            MaterialKind::Lambertian(m) => m.scatter(r_in, rec, attenuation, scattered),
            MaterialKind::Metal(m) => m.scatter(r_in, rec, attenuation, scattered),
            MaterialKind::Dielectric(m) => m.scatter(r_in, rec, attenuation, scattered),
        }
    }
}

} // verus!
