//! Spheres and their intersection with a ray.

use crate::fixed::{
    fx_add, fx_div, fx_mul, fx_mul_sub, fx_neg, fx_sqrt, fx_sub, fx_times, growth,
    lemma_fx_div_monotonic, lemma_growth, lemma_isqrt_exists, magnitude, scale, Fixed,
};
use crate::hit_accuracy::{
    distance, hit_in_proportion, hit_of_ordinary_size, hit_root, hit_tolerance,
    hit_unsaturated, lemma_sphere_hit_accuracy, normal_tolerance, HIT_TOLERANCE_RAW, NORMAL_TOLERANCE_RAW,
};
use crate::hittable::{
    facing_normal, lemma_facing_normal_opposes, strikes_front, HitModel, HitRecord, Hittable,
};
use crate::material::{material_wf, MaterialKind, MaterialModel};
use crate::ray::{ray_at, Ray, RayModel};
use crate::vec3::{
    v3_div, v3_dot, v3_grown, v3_length, v3_length_squared, v3_reach, v3_sub, Point3, Vec3, V3,
};
use vstd::prelude::*;

verus! {

/// Model of a sphere.
pub struct SphereModel {
    pub center: V3,
    pub radius: int,
    pub material: MaterialModel,
}

/// Whether a sphere is well formed: its radius is not zero and its material is
/// well formed.
pub open spec fn sphere_wf(s: SphereModel) -> bool {
    s.radius != 0 && material_wf(s.material)
}

/// Leading coefficient `a = D . D` of the quadratic `a t^2 + 2 half_b t + c`
/// whose roots are the parameters at which the ray meets the sphere.
pub open spec fn quadratic_a(r: RayModel) -> int {
    v3_length_squared(r.direction)
}

/// Half of the linear coefficient: `half_b = (O - C) . D`.
pub open spec fn quadratic_half_b(s: SphereModel, r: RayModel) -> int {
    v3_dot(v3_sub(r.origin, s.center), r.direction)
}

/// Constant coefficient: `c = (O - C) . (O - C) - radius^2`.
pub open spec fn quadratic_c(s: SphereModel, r: RayModel) -> int {
    fx_sub(v3_length_squared(v3_sub(r.origin, s.center)), fx_mul(s.radius, s.radius))
}

/// Discriminant `half_b^2 - a c`, rounded once.
pub open spec fn discriminant(s: SphereModel, r: RayModel) -> int {
    fx_mul_sub(quadratic_half_b(s, r), quadratic_half_b(s, r), quadratic_a(r), quadratic_c(s, r))
}

/// Whether the line of the ray meets the sphere: the direction has a positive
/// squared length and the discriminant is not negative.
pub open spec fn meets(s: SphereModel, r: RayModel) -> bool {
    quadratic_a(r) > 0 && discriminant(s, r) >= 0
}

/// The smaller root `(-half_b - sqrt(discriminant)) / a`.
pub open spec fn near_root(s: SphereModel, r: RayModel) -> int {
    fx_div(fx_sub(fx_neg(quadratic_half_b(s, r)), fx_sqrt(discriminant(s, r))), quadratic_a(r))
}

/// The larger root `(-half_b + sqrt(discriminant)) / a`.
pub open spec fn far_root(s: SphereModel, r: RayModel) -> int {
    fx_div(fx_add(fx_neg(quadratic_half_b(s, r)), fx_sqrt(discriminant(s, r))), quadratic_a(r))
}

/// Whether `t` lies strictly between `t_min` and `t_max`.
pub open spec fn within(t: int, t_min: int, t_max: int) -> bool {
    t_min < t < t_max
}

/// The hit record for the ray parameter `t`: the point of the ray, the outward
/// normal `(point - center) / radius` turned against the ray, and the sphere's
/// material.
pub open spec fn hit_at(s: SphereModel, r: RayModel, t: int) -> HitModel {
    let p = ray_at(r, t);
    let outward = v3_div(v3_sub(p, s.center), s.radius);
    HitModel {
        p,
        normal: facing_normal(r.direction, outward),
        material: s.material,
        t,
        front_face: strikes_front(r.direction, outward),
    }
}

/// The ray with its direction brought to ordinary size. It runs along the
/// same line; a parameter of the ray is [`ray_growth`] times the parameter of
/// this one at the same point.
pub open spec fn grown_ray(r: RayModel) -> RayModel {
    RayModel { origin: r.origin, direction: v3_grown(r.direction) }
}

/// The power of two by which the direction of the ray is multiplied to bring
/// it to ordinary size.
pub open spec fn ray_growth(r: RayModel) -> int {
    growth(v3_reach(r.direction))
}

/// The smaller of the two parameters at which the ray meets the sphere: the
/// smaller root for the ray of ordinary size, brought back to the ray.
pub open spec fn near_parameter(s: SphereModel, r: RayModel) -> int {
    fx_times(near_root(s, grown_ray(r)), ray_growth(r))
}

/// The larger of the two parameters at which the ray meets the sphere.
pub open spec fn far_parameter(s: SphereModel, r: RayModel) -> int {
    fx_times(far_root(s, grown_ray(r)), ray_growth(r))
}

/// The nearest intersection of the ray with the sphere at a parameter strictly
/// between `t_min` and `t_max`: at the smaller parameter where that lies in
/// the interval, else at the larger one where that does, else none. The
/// quadratic is solved for the ray of ordinary size, so that a short
/// direction loses nothing to rounding; a ray without direction meets
/// nothing.
pub open spec fn sphere_hit(s: SphereModel, r: RayModel, t_min: int, t_max: int) -> Option<
    HitModel,
> {
    if !meets(s, grown_ray(r)) {
        None
    } else if within(near_parameter(s, r), t_min, t_max) {
        Some(hit_at(s, r, near_parameter(s, r)))
    } else if within(far_parameter(s, r), t_min, t_max) {
        Some(hit_at(s, r, far_parameter(s, r)))
    } else {
        None
    }
}

/// The smaller parameter is not above the larger one.
pub proof fn lemma_parameters_ordered(s: SphereModel, r: RayModel)
    requires
        meets(s, grown_ray(r)),
    ensures
        near_parameter(s, r) <= far_parameter(s, r),
{
    let g = grown_ray(r);
    let f = ray_growth(r);
    lemma_roots_ordered(s, g);
    lemma_growth(v3_reach(r.direction));
    assert(near_root(s, g) * f <= far_root(s, g) * f) by (nonlinear_arith)
        requires
            near_root(s, g) <= far_root(s, g),
            1 <= f,
    ;
}

/// The smaller root is not above the larger one.
pub proof fn lemma_roots_ordered(s: SphereModel, r: RayModel)
    requires
        meets(s, r),
    ensures
        near_root(s, r) <= far_root(s, r),
{
    let d = discriminant(s, r);
    assert(d * scale() >= 0) by (nonlinear_arith)
        requires
            d >= 0,
    ;
    lemma_isqrt_exists(d * scale());
    let nb = fx_neg(quadratic_half_b(s, r));
    lemma_fx_div_monotonic(fx_sub(nb, fx_sqrt(d)), fx_add(nb, fx_sqrt(d)), quadratic_a(r));
}

/// A reported hit lies at a parameter strictly inside the queried interval, at
/// the point of the ray for that parameter, and its normal does not point along
/// the ray.
pub proof fn lemma_sphere_hit_valid(s: SphereModel, r: RayModel, t_min: int, t_max: int)
    requires
        sphere_hit(s, r, t_min, t_max) is Some,
    ensures
        ({
            let h = sphere_hit(s, r, t_min, t_max).unwrap();
            &&& t_min < h.t < t_max
            &&& h.p == ray_at(r, h.t)
            &&& h.material == s.material
            &&& v3_dot(r.direction, h.normal) <= 0
            &&& h.t == near_parameter(s, r) || h.t == far_parameter(s, r)
        }),
{
    let h = sphere_hit(s, r, t_min, t_max).unwrap();
    let outward = v3_div(v3_sub(ray_at(r, h.t), s.center), s.radius);
    lemma_facing_normal_opposes(r.direction, outward);
}

/// Lowering the upper bound of the interval keeps a hit that lies below the
/// new bound and drops any other.
pub proof fn lemma_sphere_hit_narrowed(
    s: SphereModel,
    r: RayModel,
    t_min: int,
    t_max: int,
    bound: int,
)
    requires
        bound <= t_max,
    ensures
        sphere_hit(s, r, t_min, bound) == (match sphere_hit(s, r, t_min, t_max) {
            Some(h) => if h.t < bound {
                Some(h)
            } else {
                None
            },
            None => None,
        }),
{
    if meets(s, grown_ray(r)) {
        lemma_parameters_ordered(s, r);
    }
}

/// A sphere with a material.
#[derive(Clone, Copy, Debug, PartialEq, Eq)]
pub struct Sphere {
    pub center: Point3,
    pub radius: Fixed,
    pub mat_ptr: MaterialKind,
}

impl View for Sphere {
    type V = SphereModel;

    open spec fn view(&self) -> SphereModel {
        SphereModel { center: self.center@, radius: self.radius@, material: self.mat_ptr@ }
    }
}

impl Sphere {
    /// The sphere about `center` with the given radius, which must not be zero,
    /// and material.
    pub fn new(center: Point3, radius: Fixed, mat_ptr: MaterialKind) -> (s: Sphere)
        requires
            radius@ != 0,
            material_wf(mat_ptr@),
        ensures
            s == (Sphere { center, radius, mat_ptr }),
            sphere_wf(s@),
    {
        Sphere { center, radius, mat_ptr }
    }

    /// Whether the sphere is well formed.
    pub fn is_valid(&self) -> (r: bool)
        ensures
            r == sphere_wf(self@),
    {
        !self.radius.is_zero() && self.mat_ptr.is_valid()
    }
}

impl Hittable for Sphere {
    open spec fn wf(&self) -> bool {
        sphere_wf(self@)
    }

    open spec fn hit_model(&self, r: RayModel, t_min: int, t_max: int) -> Option<HitModel> {
        sphere_hit(self@, r, t_min, t_max)
    }

    /// Beyond what every surface promises: the point of a reported hit lies
    /// on the sphere, and the stored normal has the length one, within the
    /// tolerances of the computation, where no step of it left the range of
    /// the numbers; for a hit of ordinary size these are 10^-5 and 10^-4, and
    /// for a hit in proportion to the sphere the point is off by at most
    /// 3.5 * 10^-5 and 1.5 * 10^-5 times the parameter of the ray of ordinary
    /// size.
    fn hit(&self, r: &Ray, t_min: Fixed, t_max: Fixed, rec: &mut HitRecord) -> (found: bool)
        ensures
            found && hit_unsaturated(
                self@,
                grown_ray(r@),
                hit_root(self@, r@, t_min@, t_max@),
            ) ==> magnitude(distance(final(rec)@.p, self@.center) - magnitude(self@.radius))
                <= hit_tolerance(self@, grown_ray(r@), hit_root(self@, r@, t_min@, t_max@)),
            found && hit_unsaturated(self@, grown_ray(r@), hit_root(self@, r@, t_min@, t_max@))
                && normal_tolerance(self@, grown_ray(r@), hit_root(self@, r@, t_min@, t_max@))
                <= scale() ==> magnitude(v3_length(final(rec)@.normal) - scale())
                <= normal_tolerance(self@, grown_ray(r@), hit_root(self@, r@, t_min@, t_max@)),
            found && hit_unsaturated(self@, grown_ray(r@), hit_root(self@, r@, t_min@, t_max@))
                && hit_in_proportion(
                self@,
                grown_ray(r@),
                hit_root(self@, r@, t_min@, t_max@),
            ) ==> magnitude(distance(final(rec)@.p, self@.center) - magnitude(self@.radius))
                * scale() <= 151985 * scale() + 65536 * magnitude(
                hit_root(self@, r@, t_min@, t_max@),
            ),
            found && hit_unsaturated(self@, grown_ray(r@), hit_root(self@, r@, t_min@, t_max@))
                && hit_of_ordinary_size(
                self@,
                grown_ray(r@),
                hit_root(self@, r@, t_min@, t_max@),
            ) ==> magnitude(distance(final(rec)@.p, self@.center) - magnitude(self@.radius))
                <= HIT_TOLERANCE_RAW && magnitude(v3_length(final(rec)@.normal) - scale())
                <= NORMAL_TOLERANCE_RAW,
    {
        let growth = r.direction.growth();
        let direction = r.direction.times(growth);
        let oc: Vec3 = r.origin.sub(self.center);
        let a = direction.length_squared();
        let half_b = oc.dot(&direction);
        let c = oc.length_squared().sub(self.radius.mul(self.radius));

        let discriminant = half_b.mul_sub(half_b, a, c);
        if !Fixed::zero().lt(a) || discriminant.is_negative() {
            return false;
        }
        let sqrtd = discriminant.sqrt();

        let mut root = half_b.neg().sub(sqrtd).div(a).times(growth);
        if !(t_min.lt(root) && root.lt(t_max)) {
            root = half_b.neg().add(sqrtd).div(a).times(growth);
            if !(t_min.lt(root) && root.lt(t_max)) {
                return false;
            }
        }
        proof {
            lemma_sphere_hit_valid(self@, r@, t_min@, t_max@);
            t_min.lemma_in_range();
            t_max.lemma_in_range();
            r.direction.lemma_valid();
            if hit_unsaturated(self@, grown_ray(r@), hit_root(self@, r@, t_min@, t_max@)) {
                lemma_sphere_hit_accuracy(self@, r@, t_min@, t_max@);
            }
        }
        rec.t = root;
        rec.p = r.at(rec.t);
        let outward_normal = rec.p.sub(self.center).div(self.radius);
        rec.set_face_normal(r, &outward_normal);
        rec.mat_ptr = self.mat_ptr;

        true
    }
}

} // verus!
