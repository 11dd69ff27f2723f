//! The camera: maps image-plane coordinates to rays, with a lens of finite
//! aperture for depth of field.

use crate::fixed::{
    fx_add, fx_div, fx_mul, growth, lemma_fx_div_bound, lemma_fx_mul_bound, lemma_growth,
    lemma_isqrt_exists, limit, magnitude, scale, Fixed,
};
use crate::orthogonality::{
    exact_dot, lemma_cross_length, lemma_cross_orthogonal, lemma_cross_size, lemma_dot_size,
    lemma_unit_against,
};
use crate::ray::{Ray, RayModel};
use crate::rtweekend::{degrees_to_radians, fx_degrees_to_radians, PI_RAW};
use crate::trig::{cos, fx_cos, fx_tan, lemma_cosine_positive, sin};
use crate::unit_length::{
    lemma_grown, lemma_reach_within_length, lemma_unit_vector_length, UNIT_TOLERANCE_RAW,
};
use crate::vec3::{
    in_unit_disk, v3_add, v3_cross, v3_div, v3_dot, v3_length, v3_reach, v3_scale, v3_sub,
    v3_unit, v3_valid, Point3, Vec3, V3,
};
use vstd::prelude::*;

verus! {

/// Model of a camera.
pub struct CameraModel {
    pub origin: V3,
    pub lower_left_corner: V3,
    pub horizontal: V3,
    pub vertical: V3,
    pub u: V3,
    pub v: V3,
    pub w: V3,
    pub lens_radius: int,
}

/// Half of the vertical field of view, in radians, for a field of view given
/// in degrees.
pub open spec fn half_angle(vfov: int) -> int {
    fx_div(fx_degrees_to_radians(vfov), 2 * scale())
}

/// Unit vector from the target to the eye.
pub open spec fn camera_w(lookfrom: V3, lookat: V3) -> V3 {
    v3_unit(v3_sub(lookfrom, lookat))
}

/// Unit vector to the right of the view.
pub open spec fn camera_u(lookfrom: V3, lookat: V3, vup: V3) -> V3 {
    v3_unit(v3_cross(vup, camera_w(lookfrom, lookat)))
}

/// Whether a camera can be built: the field of view lies strictly between 0
/// and 180 degrees and the cosine polynomial of half of it is positive, so
/// that the tangent is defined; the eye is apart from the target; and the up
/// vector is not parallel to the view. Up to 160 degrees the cosine
/// polynomial is always positive ([`lemma_field_of_view`]).
pub open spec fn camera_defined(lookfrom: V3, lookat: V3, vup: V3, vfov: int) -> bool {
    &&& 0 < vfov < 180 * scale()
    &&& fx_cos(half_angle(vfov)) > 0
    &&& v3_length(v3_sub(lookfrom, lookat)) != 0
    &&& v3_length(v3_cross(vup, camera_w(lookfrom, lookat))) != 0
}

/// Largest growth of the cross product of the up vector and `w` for which
/// [`lemma_camera_basis`] gives a right angle between `u` and `w`: 4096,
/// which admits a cross product whose largest component is at least 2^-13.
pub const BASIS_GROWTH_MAX: i64 = 4096;

/// Largest raw magnitude that the dot product of `v` with `w` or `u` can
/// have: six units.
pub const BASIS_RIGHT_ANGLE_RAW: i64 = 6;

/// Largest raw distance from one that the length of `v` can have above one:
/// 85902 units, about 2 * 10^-5.
pub const BASIS_LENGTH_TOLERANCE_RAW: i64 = 85902;

/// The basis of a camera is orthonormal within tolerance, where neither the
/// vector from the target to the eye nor the cross product of the up vector
/// with `w` is as long as the largest number. The vectors `w` and `u` have
/// the length one within 10^-5, and `v` stands at a right angle to both
/// within six units. Where the cross product that `u` is made from is not
/// shorter than 2^-13, so that its rounding does not tell, `u` stands at a
/// right angle to `w` within 10^-5 and `v` has the length one within
/// 2 * 10^-5.
pub proof fn lemma_camera_basis(lookfrom: V3, lookat: V3, vup: V3)
    requires
        v3_length(v3_sub(lookfrom, lookat)) != 0,
        v3_length(v3_sub(lookfrom, lookat)) < limit(),
        v3_length(v3_cross(vup, camera_w(lookfrom, lookat))) != 0,
        v3_length(v3_cross(vup, camera_w(lookfrom, lookat))) < limit(),
    ensures
        ({
            let w = camera_w(lookfrom, lookat);
            let u = camera_u(lookfrom, lookat, vup);
            let v = v3_cross(w, u);
            &&& scale() - 2 <= v3_length(w) <= scale() + UNIT_TOLERANCE_RAW
            &&& scale() - 2 <= v3_length(u) <= scale() + UNIT_TOLERANCE_RAW
            &&& magnitude(v3_dot(v, w)) <= BASIS_RIGHT_ANGLE_RAW
            &&& magnitude(v3_dot(v, u)) <= BASIS_RIGHT_ANGLE_RAW
            &&& growth(v3_reach(v3_cross(vup, w))) <= BASIS_GROWTH_MAX ==> magnitude(
                v3_dot(u, w),
            ) <= UNIT_TOLERANCE_RAW && scale() - 7 <= v3_length(v) <= scale()
                + BASIS_LENGTH_TOLERANCE_RAW
        }),
{
    let k = scale();
    let w = camera_w(lookfrom, lookat);
    let c = v3_cross(vup, w);
    let u = camera_u(lookfrom, lookat, vup);
    let v = v3_cross(w, u);
    lemma_unit_vector_length(v3_sub(lookfrom, lookat));
    lemma_unit_vector_length(c);
    lemma_reach_within_length(w);
    lemma_reach_within_length(u);
    lemma_reach_within_length(c);
    assert(0 <= w.x * w.x && 0 <= w.y * w.y && 0 <= w.z * w.z) by (nonlinear_arith);
    assert(0 <= u.x * u.x && 0 <= u.y * u.y && 0 <= u.z * u.z) by (nonlinear_arith);
    assert(0 <= c.x * c.x && 0 <= c.y * c.y && 0 <= c.z * c.z) by (nonlinear_arith);
    lemma_isqrt_exists(w.x * w.x + w.y * w.y + w.z * w.z);
    lemma_isqrt_exists(u.x * u.x + u.y * u.y + u.z * u.z);
    lemma_isqrt_exists(c.x * c.x + c.y * c.y + c.z * c.z);
    let bw = v3_reach(w);
    let bu = v3_reach(u);
    assert(bw <= 2 * k && bu <= 2 * k);
    // v against w and u
    lemma_cross_size(w, u, 2 * k);
    lemma_cross_orthogonal(w, u);
    assert(3 * bw <= 6 * k && 3 * bu <= 6 * k);
    lemma_dot_size(v, w, 6);
    lemma_dot_size(v, u, 6);
    // u against w
    assert(v3_valid(c));
    lemma_grown(c);
    lemma_cross_orthogonal(vup, w);
    lemma_unit_against(c, w, 3 * bw);
    let f = growth(v3_reach(c));
    lemma_growth(v3_reach(c));
    if f <= BASIS_GROWTH_MAX {
        assert(2 * f * (3 * bw) + 3 * bw <= 42949 * k) by (nonlinear_arith)
            requires
                1 <= f <= 4096,
                0 <= bw <= k + 42949,
                k == 0x1_0000_0000,
        ;
        lemma_dot_size(u, w, 42949);
        assert(2 * f * (3 * bw) + 3 * bw <= 24600 * k) by (nonlinear_arith)
            requires
                1 <= f <= 4096,
                0 <= bw <= k + 42949,
                k == 0x1_0000_0000,
        ;
        assert(exact_dot(w, u) == exact_dot(u, w)) by (nonlinear_arith)
            requires
                exact_dot(w, u) == w.x * u.x + w.y * u.y + w.z * u.z,
                exact_dot(u, w) == u.x * w.x + u.y * w.y + u.z * w.z,
        ;
        lemma_cross_length(w, u);
    }
}

/// For a field of view of up to 160 degrees the cosine polynomial of half of
/// it is positive, and at most one.
pub proof fn lemma_field_of_view(vfov: int)
    requires
        0 < vfov <= 160 * scale(),
    ensures
        0 < fx_cos(half_angle(vfov)) <= scale(),
{
    let k = scale();
    lemma_fx_mul_bound(vfov, PI_RAW as int, 160 * k, PI_RAW as int);
    let turned = fx_mul(vfov, PI_RAW as int);
    assert(160 * k * (PI_RAW as int) == 9272344906667183308800);
    assert(9272344906667183308800int / 4294967296 == 2158886032800);
    assert(turned <= 2158886032800);
    lemma_fx_div_bound(turned, 180 * k, 2158886032800);
    let radians = fx_div(turned, 180 * k);
    assert(2158886032800 * k == 9272344906667183308800);
    assert(9272344906667183308800int / 773094113280 == 11993811293);
    assert(radians <= 11993811293);
    lemma_fx_div_bound(radians, 2 * k, 11993811293);
    let half = fx_div(radians, 2 * k);
    assert(11993811293 * k == 51513027257830473728);
    assert(51513027257830473728int / 8589934592 == 5996905646);
    assert(half == half_angle(vfov));
    assert(half <= 5996905646);
    lemma_fx_mul_bound(half, half, 5996905646, 5996905646);
    assert(5996905646int * 5996905646 == 35962877327026677316);
    assert(35962877327026677316int / 4294967296 == 8373259875);
    lemma_cosine_positive(half);
}

/// The camera at `lookfrom` that looks at `lookat`, with `vup` pointing up.
///
/// The basis is `w = unit(lookfrom - lookat)`, `u = unit(vup x w)`,
/// `v = w x u`. The viewport is `2 tan(vfov / 2)` high and `aspect_ratio`
/// times as wide, both scaled by `focus_dist`, and lies at that distance from
/// the eye. The lens has the radius `aperture / 2`.
pub open spec fn camera_model(
    lookfrom: V3,
    lookat: V3,
    vup: V3,
    vfov: int,
    aspect_ratio: int,
    aperture: int,
    focus_dist: int,
) -> CameraModel {
    let h = fx_tan(half_angle(vfov));
    let viewport_height = fx_add(h, h);
    let viewport_width = fx_mul(aspect_ratio, viewport_height);
    let w = camera_w(lookfrom, lookat);
    let u = camera_u(lookfrom, lookat, vup);
    let v = v3_cross(w, u);
    let horizontal = v3_scale(u, fx_mul(focus_dist, viewport_width));
    let vertical = v3_scale(v, fx_mul(focus_dist, viewport_height));
    let lower_left_corner = v3_sub(
        v3_sub(
            v3_sub(lookfrom, v3_div(horizontal, 2 * scale())),
            v3_div(vertical, 2 * scale()),
        ),
        v3_scale(w, focus_dist),
    );
    CameraModel {
        origin: lookfrom,
        lower_left_corner,
        horizontal,
        vertical,
        u,
        v,
        w,
        lens_radius: fx_div(aperture, 2 * scale()),
    }
}

/// The ray through the image-plane coordinates `(s, t)` for the point `lens`
/// of the unit disk: it starts on the lens at `lens_radius * lens` in the
/// `(u, v)` plane and aims at the viewport point of `(s, t)`.
pub open spec fn camera_ray(c: CameraModel, s: int, t: int, lens: V3) -> RayModel {
    let rd = v3_scale(lens, c.lens_radius);
    let offset = v3_add(v3_scale(c.u, rd.x), v3_scale(c.v, rd.y));
    RayModel {
        origin: v3_add(c.origin, offset),
        direction: v3_sub(
            v3_sub(
                v3_add(
                    v3_add(c.lower_left_corner, v3_scale(c.horizontal, s)),
                    v3_scale(c.vertical, t),
                ),
                c.origin,
            ),
            offset,
        ),
    }
}

/// A camera.
#[derive(Clone, Copy, Debug)]
pub struct Camera {
    origin: Point3,
    lower_left_corner: Point3,
    horizontal: Vec3,
    vertical: Vec3,
    u: Vec3,
    v: Vec3,
    w: Vec3,
    lens_radius: Fixed,
}

impl View for Camera {
    type V = CameraModel;

    closed spec fn view(&self) -> CameraModel {
        CameraModel {
            origin: self.origin@,
            lower_left_corner: self.lower_left_corner@,
            horizontal: self.horizontal@,
            vertical: self.vertical@,
            u: self.u@,
            v: self.v@,
            w: self.w@,
            lens_radius: self.lens_radius@,
        }
    }
}

impl Camera {
    /// The camera at `lookfrom` that looks at `lookat`, with `vup` pointing up,
    /// a vertical field of view of `vfov` degrees, the given ratio of width to
    /// height, lens diameter and distance of the plane in focus. The
    /// arguments must define a camera. Its basis is orthonormal within
    /// tolerance, as [`lemma_camera_basis`] says, unless the vectors it is made
    /// from are as long as the largest number.
    pub fn new(
        lookfrom: Point3,
        lookat: Point3,
        vup: Vec3,
        vfov: Fixed,
        aspect_ratio: Fixed,
        aperture: Fixed,
        focus_dist: Fixed,
    ) -> (camera: Camera)
        requires
            camera_defined(lookfrom@, lookat@, vup@, vfov@),
        ensures
            camera@ == camera_model(
                lookfrom@,
                lookat@,
                vup@,
                vfov@,
                aspect_ratio@,
                aperture@,
                focus_dist@,
            ),
            v3_length(v3_sub(lookfrom@, lookat@)) < limit() && v3_length(
                v3_cross(vup@, camera_w(lookfrom@, lookat@)),
            ) < limit() ==> {
                &&& scale() - 2 <= v3_length(camera@.w) <= scale() + UNIT_TOLERANCE_RAW
                &&& scale() - 2 <= v3_length(camera@.u) <= scale() + UNIT_TOLERANCE_RAW
                &&& magnitude(v3_dot(camera@.v, camera@.w)) <= BASIS_RIGHT_ANGLE_RAW
                &&& magnitude(v3_dot(camera@.v, camera@.u)) <= BASIS_RIGHT_ANGLE_RAW
                &&& growth(v3_reach(v3_cross(vup@, camera_w(lookfrom@, lookat@))))
                    <= BASIS_GROWTH_MAX ==> magnitude(v3_dot(camera@.u, camera@.w))
                    <= UNIT_TOLERANCE_RAW && scale() - 7 <= v3_length(camera@.v) <= scale()
                    + BASIS_LENGTH_TOLERANCE_RAW
            },
    {
        proof {
            if v3_length(v3_sub(lookfrom@, lookat@)) < limit() && v3_length(
                v3_cross(vup@, camera_w(lookfrom@, lookat@)),
            ) < limit() {
                lemma_camera_basis(lookfrom@, lookat@, vup@);
            }
        }
        let two = Fixed::from_int(2);
        let theta = degrees_to_radians(vfov);
        let half = theta.div(two);
        let h = sin(half).div(cos(half));
        let viewport_height = h.add(h);
        let viewport_width = aspect_ratio.mul(viewport_height);

        let w = lookfrom.sub(lookat).unit_vector();
        let u = vup.cross(&w).unit_vector();
        let v = w.cross(&u);

        let origin = lookfrom;
        let horizontal = u.scale(focus_dist.mul(viewport_width));
        let vertical = v.scale(focus_dist.mul(viewport_height));
        let lower_left_corner = origin.sub(horizontal.div(two)).sub(vertical.div(two)).sub(
            w.scale(focus_dist),
        );

        let lens_radius = aperture.div(two);

        Camera { origin, horizontal, vertical, lower_left_corner, u, v, w, lens_radius }
    }

    /// The camera for the given arguments, or nothing where they define none.
    pub fn try_new(
        lookfrom: Point3,
        lookat: Point3,
        vup: Vec3,
        vfov: Fixed,
        aspect_ratio: Fixed,
        aperture: Fixed,
        focus_dist: Fixed,
    ) -> (camera: Option<Camera>)
        ensures
            camera is Some <==> camera_defined(lookfrom@, lookat@, vup@, vfov@),
            camera is Some ==> camera.unwrap()@ == camera_model(
                lookfrom@,
                lookat@,
                vup@,
                vfov@,
                aspect_ratio@,
                aperture@,
                focus_dist@,
            ),
    {
        if !Fixed::zero().lt(vfov) || !vfov.lt(Fixed::from_int(180)) {
            return None;
        }
        let half = degrees_to_radians(vfov).div(Fixed::from_int(2));
        if !Fixed::zero().lt(cos(half)) {
            return None;
        }
        let back = lookfrom.sub(lookat);
        if back.length().is_zero() {
            return None;
        }
        let w = back.unit_vector();
        if vup.cross(&w).length().is_zero() {
            return None;
        }
        Some(Camera::new(lookfrom, lookat, vup, vfov, aspect_ratio, aperture, focus_dist))
    }

    /// The ray through the image-plane coordinates `(s, t)` for the point
    /// `lens` of the unit disk.
    pub fn ray_through(&self, s: Fixed, t: Fixed, lens: Vec3) -> (r: Ray)
        ensures
            r@ == camera_ray(self@, s@, t@, lens@),
    {
        let rd = lens.scale(self.lens_radius);
        let offset = self.u.scale(rd.x()).add(self.v.scale(rd.y()));

        Ray::new(
            self.origin.add(offset),
            self.lower_left_corner.add(self.horizontal.scale(s)).add(self.vertical.scale(t)).sub(
                self.origin,
            ).sub(offset),
        )
    }

    /// The ray through the image-plane coordinates `(s, t)` for a random point
    /// of the lens.
    pub fn get_ray(&self, s: Fixed, t: Fixed) -> (r: Ray)
        ensures
            exists|lens: V3| #[trigger] in_unit_disk(lens) && r@ == camera_ray(self@, s@, t@, lens),
    {
        let lens = Vec3::random_in_unit_disk();
        self.ray_through(s, t, lens)
    }
}

} // verus!
