//! What an intersection query returns, and the interface of what can be hit.

use crate::fixed::Fixed;
use crate::material::{Lambertian, MaterialKind, MaterialModel};
use crate::ray::{Ray, RayModel};
use crate::vec3::{v3_dot, v3_neg, v3_valid, v3_zero, Color, Point3, Vec3, V3};
use vstd::prelude::*;

verus! {

/// Model of a hit record.
pub struct HitModel {
    pub p: V3,
    pub normal: V3,
    pub material: MaterialModel,
    pub t: int,
    pub front_face: bool,
}

/// Whether a ray along `direction` strikes the outer side of a surface whose
/// outward normal is `outward`.
pub open spec fn strikes_front(direction: V3, outward: V3) -> bool {
    v3_dot(direction, outward) < 0
}

/// The normal stored for a ray along `direction`: the outward normal where the
/// ray strikes the outer side, its negation otherwise.
pub open spec fn facing_normal(direction: V3, outward: V3) -> V3 {
    if strikes_front(direction, outward) {
        outward
    } else {
        v3_neg(outward)
    }
}

/// The stored normal never points along the ray: its dot product with the
/// ray's direction is at most zero.
pub proof fn lemma_facing_normal_opposes(direction: V3, outward: V3)
    requires
        v3_valid(outward),
    ensures
        v3_dot(direction, facing_normal(direction, outward)) <= 0,
{
    if !strikes_front(direction, outward) {
        let s = direction.x * outward.x + direction.y * outward.y + direction.z * outward.z;
        let t = direction.x * (-outward.x) + direction.y * (-outward.y) + direction.z * (
        -outward.z);
        assert(t == -s) by (nonlinear_arith)
            requires
                s == direction.x * outward.x + direction.y * outward.y + direction.z * outward.z,
                t == direction.x * (-outward.x) + direction.y * (-outward.y) + direction.z * (
                -outward.z),
        ;
    }
}

/// The result of an intersection query.
#[derive(Clone, Copy, Debug, PartialEq, Eq)]
pub struct HitRecord {
    /// Point of the hit.
    pub p: Point3,
    /// Surface normal at the hit, turned against the incoming ray.
    pub normal: Vec3,
    /// Material of the surface.
    pub mat_ptr: MaterialKind,
    /// Ray parameter of the hit.
    pub t: Fixed,
    /// Whether the ray struck the outer side of the surface.
    pub front_face: bool,
}

impl View for HitRecord {
    type V = HitModel;

    open spec fn view(&self) -> HitModel {
        HitModel {
            p: self.p@,
            normal: self.normal@,
            material: self.mat_ptr@,
            t: self.t@,
            front_face: self.front_face,
        }
    }
}

impl HitRecord {
    /// A record at the origin with a zero normal and a black diffuse material.
    pub fn new_empty() -> (rec: HitRecord)
        ensures
            rec@ == (HitModel {
                p: v3_zero(),
                normal: v3_zero(),
                material: MaterialModel::Lambertian { albedo: v3_zero() },
                t: 0,
                front_face: false,
            }),
    {
        HitRecord {
            p: Point3::zero(),
            normal: Vec3::zero(),
            mat_ptr: MaterialKind::Lambertian(Lambertian::new(Color::zero())),
            t: Fixed::zero(),
            front_face: false,
        }
    }

    /// Stores the side that the ray `r` strikes and the normal turned against
    /// it, given the outward normal of the surface.
    pub fn set_face_normal(&mut self, r: &Ray, outward_normal: &Vec3)
        ensures
            final(self).front_face == strikes_front(r@.direction, outward_normal@),
            final(self).normal@ == facing_normal(r@.direction, outward_normal@),
            v3_dot(r@.direction, final(self).normal@) <= 0,
            final(self).p == old(self).p,
            final(self).mat_ptr == old(self).mat_ptr,
            final(self).t == old(self).t,
    {
        proof {
            outward_normal.lemma_valid();
            lemma_facing_normal_opposes(r@.direction, outward_normal@);
        }
        self.front_face = r.direction.dot(outward_normal).is_negative();
        self.normal = if self.front_face {
            *outward_normal
        } else {
            outward_normal.neg()
        };
    }
}

/// A surface that a ray can hit.
pub trait Hittable {
    /// Whether the surface is well formed.
    spec fn wf(&self) -> bool;

    /// The nearest intersection of the ray with the surface at a parameter
    /// strictly between `t_min` and `t_max`, if there is one.
    spec fn hit_model(&self, r: RayModel, t_min: int, t_max: int) -> Option<HitModel>;

    /// Looks for the nearest intersection of `r` with the surface at a parameter
    /// strictly between `t_min` and `t_max`. Where there is one, it is written to
    /// `rec` and the result is `true`; where there is none, `rec` is left as it
    /// was. The normal of a reported hit never points along the ray.
    fn hit(&self, r: &Ray, t_min: Fixed, t_max: Fixed, rec: &mut HitRecord) -> (found: bool)
        requires
            self.wf(),
        ensures
            found == self.hit_model(r@, t_min@, t_max@).is_some(),
            found ==> final(rec)@ == self.hit_model(r@, t_min@, t_max@).unwrap(),
            found ==> t_min@ < final(rec)@.t < t_max@,
            found ==> v3_dot(r@.direction, final(rec)@.normal) <= 0,
            !found ==> *final(rec) == *old(rec),
    ;
}

} // verus!
