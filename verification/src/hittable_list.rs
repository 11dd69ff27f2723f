//! A scene: a list of spheres that answers with the nearest hit among them.

use crate::fixed::{in_range, magnitude, scale, Fixed};
use crate::hit_accuracy::{
    distance, hit_in_proportion, hit_of_ordinary_size, hit_root, hit_tolerance,
    hit_unsaturated, lemma_sphere_hit_accuracy, normal_tolerance, HIT_TOLERANCE_RAW, NORMAL_TOLERANCE_RAW,
};
use crate::hittable::{HitModel, HitRecord, Hittable};
use crate::ray::{Ray, RayModel};
use crate::sphere::{
    grown_ray, lemma_sphere_hit_narrowed, lemma_sphere_hit_valid, sphere_hit, sphere_wf, Sphere,
    SphereModel,
};
use crate::vec3::{v3_dot, v3_length, v3_valid};
use vstd::prelude::*;

verus! {

/// The nearest intersection of the ray with any sphere of the scene at a
/// parameter strictly between `t_min` and `t_max`. Among hits at the same
/// parameter the one of the sphere that was added first is taken.
pub open spec fn scene_hit(scene: Seq<SphereModel>, r: RayModel, t_min: int, t_max: int)
    -> Option<HitModel>
    decreases scene.len(),
{
    if scene.len() == 0 {
        None
    } else {
        let before = scene_hit(scene.drop_last(), r, t_min, t_max);
        let last = sphere_hit(scene.last(), r, t_min, t_max);
        match before {
            None => last,
            Some(b) => match last {
                Some(l) => if l.t < b.t {
                    last
                } else {
                    before
                },
                None => before,
            },
        }
    }
}

/// Whether every sphere of the scene is well formed.
pub open spec fn scene_wf(scene: Seq<SphereModel>) -> bool {
    forall|i: int| 0 <= i < scene.len() ==> sphere_wf(#[trigger] scene[i])
}

/// The hit that a scene reports is the hit of one of its spheres.
pub proof fn lemma_scene_hit_is_member(
    scene: Seq<SphereModel>,
    r: RayModel,
    t_min: int,
    t_max: int,
)
    requires
        scene_hit(scene, r, t_min, t_max) is Some,
    ensures
        exists|i: int|
            0 <= i < scene.len() && #[trigger] sphere_hit(scene[i], r, t_min, t_max) == scene_hit(
                scene,
                r,
                t_min,
                t_max,
            ),
    decreases scene.len(),
{
    let before = scene_hit(scene.drop_last(), r, t_min, t_max);
    let last = sphere_hit(scene.last(), r, t_min, t_max);
    if scene_hit(scene, r, t_min, t_max) == last {
        assert(sphere_hit(scene[scene.len() - 1], r, t_min, t_max) == last);
    } else {
        lemma_scene_hit_is_member(scene.drop_last(), r, t_min, t_max);
        let i = choose|i: int|
            0 <= i < scene.drop_last().len() && #[trigger] sphere_hit(
                scene.drop_last()[i],
                r,
                t_min,
                t_max,
            ) == before;
        assert(scene.drop_last()[i] == scene[i]);
        assert(sphere_hit(scene[i], r, t_min, t_max) == before);
    }
}

/// A scene reports the closest hit: where any of its spheres is hit, the scene
/// reports a hit, and no sphere is hit at a smaller parameter.
pub proof fn lemma_scene_hit_is_closest(
    scene: Seq<SphereModel>,
    r: RayModel,
    t_min: int,
    t_max: int,
    i: int,
)
    requires
        0 <= i < scene.len(),
        sphere_hit(scene[i], r, t_min, t_max) is Some,
    ensures
        scene_hit(scene, r, t_min, t_max) is Some,
        scene_hit(scene, r, t_min, t_max).unwrap().t <= sphere_hit(
            scene[i],
            r,
            t_min,
            t_max,
        ).unwrap().t,
    decreases scene.len(),
{
    if i < scene.len() - 1 {
        assert(scene.drop_last()[i] == scene[i]);
        lemma_scene_hit_is_closest(scene.drop_last(), r, t_min, t_max, i);
    }
}

/// What a scene reports lies on the sphere that was hit: where the scene
/// reports the hit of its sphere `i`, and no step of that intersection left
/// the range of the numbers, the distance of the point from the centre of
/// that sphere differs from its radius, and the length of the reported normal
/// from one, by at most the tolerances of the computation. For a hit of
/// ordinary size these are 10^-5 and 10^-4.
pub proof fn lemma_scene_hit_accuracy(
    scene: Seq<SphereModel>,
    r: RayModel,
    t_min: int,
    t_max: int,
    i: int,
)
    requires
        0 <= i < scene.len(),
        scene[i].radius != 0,
        scene_hit(scene, r, t_min, t_max) is Some,
        scene_hit(scene, r, t_min, t_max) == sphere_hit(scene[i], r, t_min, t_max),
        in_range(t_min),
        in_range(t_max),
        v3_valid(r.direction),
        hit_unsaturated(scene[i], grown_ray(r), hit_root(scene[i], r, t_min, t_max)),
    ensures
        ({
            let h = scene_hit(scene, r, t_min, t_max).unwrap();
            let s = scene[i];
            let g = grown_ray(r);
            let t = hit_root(s, r, t_min, t_max);
            &&& magnitude(distance(h.p, s.center) - magnitude(s.radius)) <= hit_tolerance(s, g, t)
            &&& normal_tolerance(s, g, t) <= scale() ==> magnitude(v3_length(h.normal) - scale())
                <= normal_tolerance(s, g, t)
            &&& hit_of_ordinary_size(s, g, t) ==> magnitude(
                distance(h.p, s.center) - magnitude(s.radius),
            ) <= HIT_TOLERANCE_RAW && magnitude(v3_length(h.normal) - scale())
                <= NORMAL_TOLERANCE_RAW
            &&& hit_in_proportion(s, g, t) ==> magnitude(
                distance(h.p, s.center) - magnitude(s.radius),
            ) * scale() <= 151985 * scale() + 65536 * magnitude(t)
        }),
{
    lemma_sphere_hit_accuracy(scene[i], r, t_min, t_max);
}

/// What a scene reports is a valid hit: its parameter lies strictly inside the
/// queried interval and its normal does not point along the ray.
pub proof fn lemma_scene_hit_valid(scene: Seq<SphereModel>, r: RayModel, t_min: int, t_max: int)
    requires
        scene_hit(scene, r, t_min, t_max) is Some,
    ensures
        t_min < scene_hit(scene, r, t_min, t_max).unwrap().t < t_max,
        v3_dot(r.direction, scene_hit(scene, r, t_min, t_max).unwrap().normal) <= 0,
{
    lemma_scene_hit_is_member(scene, r, t_min, t_max);
    let i = choose|i: int|
        0 <= i < scene.len() && #[trigger] sphere_hit(scene[i], r, t_min, t_max) == scene_hit(
            scene,
            r,
            t_min,
            t_max,
        );
    lemma_sphere_hit_valid(scene[i], r, t_min, t_max);
}

/// An ordered list of spheres.
pub struct HittableList {
    objects: Vec<Sphere>,
}

impl View for HittableList {
    type V = Seq<SphereModel>;

    closed spec fn view(&self) -> Seq<SphereModel> {
        Seq::new(self.objects@.len(), |i: int| self.objects@[i]@)
    }
}

impl HittableList {
    /// The empty scene.
    pub fn new() -> (list: HittableList)
        ensures
            list@ == Seq::<SphereModel>::empty(),
    {
        let list = HittableList { objects: Vec::new() };
        assert(list@ =~= Seq::<SphereModel>::empty());
        list
    }

    /// Appends a sphere.
    pub fn add(&mut self, object: Sphere)
        ensures
            final(self)@ == old(self)@.push(object@),
    {
        self.objects.push(object);
        assert(self@ =~= old(self)@.push(object@));
    }

    /// Removes every sphere.
    pub fn clear(&mut self)
        ensures
            final(self)@ == Seq::<SphereModel>::empty(),
    {
        self.objects.clear();
        assert(self@ =~= Seq::<SphereModel>::empty());
    }

    /// Number of spheres.
    pub fn len(&self) -> (n: usize)
        ensures
            n == self@.len(),
    {
        self.objects.len()
    }

    /// The sphere at position `i`.
    pub fn get(&self, i: usize) -> (s: Sphere)
        requires
            i < self@.len(),
        ensures
            s@ == self@[i as int],
    {
        self.objects[i]
    }

    /// Whether every sphere of the scene is well formed.
    pub fn is_valid(&self) -> (r: bool)
        ensures
            r == scene_wf(self@),
    {
        let mut i: usize = 0;
        while i < self.objects.len()
            invariant
                0 <= i <= self.objects@.len(),
                self@.len() == self.objects@.len(),
                forall|k: int| 0 <= k < self.objects@.len() ==> self@[k] == self.objects@[k]@,
                forall|k: int| 0 <= k < i ==> sphere_wf(#[trigger] self@[k]),
            decreases self.objects@.len() - i,
        {
            if !self.objects[i].is_valid() {
                assert(!sphere_wf(self@[i as int]));
                return false;
            }
            i = i + 1;
        }
        true
    }
}

impl Hittable for HittableList {
    open spec fn wf(&self) -> bool {
        scene_wf(self@)
    }

    open spec fn hit_model(&self, r: RayModel, t_min: int, t_max: int) -> Option<HitModel> {
        scene_hit(self@, r, t_min, t_max)
    }

    /// Beyond what every surface promises: the reported record is the one of
    /// a sphere of the scene, so that what holds of that sphere's hits holds of
    /// it, and no sphere of the scene is hit at a smaller parameter than the
    /// reported one.
    fn hit(&self, r: &Ray, t_min: Fixed, t_max: Fixed, rec: &mut HitRecord) -> (found: bool)
        ensures
            found ==> exists|i: int|
                0 <= i < self@.len() && #[trigger] sphere_hit(self@[i], r@, t_min@, t_max@)
                    == Some(final(rec)@),
            forall|i: int|
                0 <= i < self@.len() && (#[trigger] sphere_hit(self@[i], r@, t_min@, t_max@))
                    is Some ==> found && final(rec)@.t <= sphere_hit(
                    self@[i],
                    r@,
                    t_min@,
                    t_max@,
                ).unwrap().t,
    {
        let mut temp_rec: HitRecord = HitRecord::new_empty();
        let mut hit_anything = false;
        let mut closest_so_far = t_max;

        let mut i: usize = 0;
        while i < self.objects.len()
            invariant
                0 <= i <= self.objects@.len(),
                self@.len() == self.objects@.len(),
                scene_wf(self@),
                forall|k: int| 0 <= k < self.objects@.len() ==> self@[k] == self.objects@[k]@,
                hit_anything == scene_hit(self@.take(i as int), r@, t_min@, t_max@).is_some(),
                hit_anything ==> rec@ == scene_hit(
                    self@.take(i as int),
                    r@,
                    t_min@,
                    t_max@,
                ).unwrap() && closest_so_far@ == rec@.t && rec@.t < t_max@,
                !hit_anything ==> *rec == *old(rec) && closest_so_far@ == t_max@,
            decreases self.objects@.len() - i,
        {
            proof {
                let prefix = self@.take(i as int + 1);
                assert(prefix.drop_last() =~= self@.take(i as int));
                assert(prefix.last() == self@[i as int]);
                lemma_sphere_hit_narrowed(self@[i as int], r@, t_min@, t_max@, closest_so_far@);
                if sphere_hit(self@[i as int], r@, t_min@, t_max@) is Some {
                    lemma_sphere_hit_valid(self@[i as int], r@, t_min@, t_max@);
                }
            }
            if self.objects[i].hit(r, t_min, closest_so_far, &mut temp_rec) {
                hit_anything = true;
                closest_so_far = temp_rec.t;
                *rec = temp_rec;
            }
            i = i + 1;
        }
        proof {
            assert(self@.take(i as int) =~= self@);
            if hit_anything {
                lemma_scene_hit_valid(self@, r@, t_min@, t_max@);
                lemma_scene_hit_is_member(self@, r@, t_min@, t_max@);
            }
            assert forall|i: int|
                0 <= i < self@.len() && (#[trigger] sphere_hit(
                    self@[i],
                    r@,
                    t_min@,
                    t_max@,
                )) is Some implies hit_anything && rec@.t <= sphere_hit(
                self@[i],
                r@,
                t_min@,
                t_max@,
            ).unwrap().t by {
                lemma_scene_hit_is_closest(self@, r@, t_min@, t_max@, i);
            }
        }
        hit_anything
    }
}

} // verus!
