//! Rays: a point of origin and a direction.

use crate::fixed::Fixed;
use crate::vec3::{v3_add, v3_scale, Point3, Vec3, V3};
use vstd::prelude::*;

verus! {

/// Model of a ray.
pub struct RayModel {
    pub origin: V3,
    pub direction: V3,
}

/// The point of the ray at parameter `t`: `origin + t direction`.
pub open spec fn ray_at(r: RayModel, t: int) -> V3 {
    v3_add(r.origin, v3_scale(r.direction, t))
}

/// A ray. The direction need not have length one.
#[derive(Clone, Copy, Debug, PartialEq, Eq)]
pub struct Ray {
    pub origin: Point3,
    pub direction: Vec3,
}

impl View for Ray {
    type V = RayModel;

    open spec fn view(&self) -> RayModel {
        RayModel { origin: self.origin@, direction: self.direction@ }
    }
}

impl Ray {
    /// The ray from `origin` along `direction`.
    pub fn new(origin: Point3, direction: Vec3) -> (r: Ray)
        ensures
            r == (Ray { origin, direction }),
    {
        Ray { origin, direction }
    }

    /// The point of the ray at parameter `t`.
    pub fn at(&self, t: Fixed) -> (p: Point3)
        ensures
            p@ == ray_at(self@, t@),
    {
        self.origin.add(self.direction.scale(t))
    }
}

} // verus!
