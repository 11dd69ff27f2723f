//! Three-component vectors, used as points, directions and colours.
//!
//! The model of a [`Vec3`] is a [`V3`], the triple of its raw components. The
//! spec functions of this module define every operation on such triples.

use crate::fixed::{
    fx_add, fx_div, fx_dot3, fx_max, fx_mul, fx_mul_sub, fx_neg, fx_norm3, fx_sub, fx_times,
    growth, in_range, limit, magnitude, scale, Fixed,
};
use crate::unit_length::{
    lemma_grown, lemma_in_unit_sphere_length, lemma_unit_vector_length, UNIT_TOLERANCE_RAW,
};
use crate::random::random_fraction;
use vstd::prelude::*;

verus! {

/// Raw bound below which a component counts as vanishing: 43 units, the
/// smallest count of units that is not below 10^-8.
pub const NEAR_ZERO_RAW: i64 = 43;

/// Model of a vector: its three raw components.
pub struct V3 {
    pub x: int,
    pub y: int,
    pub z: int,
}

/// Whether the triple is the model of some vector: each component is a raw
/// value that a number can have.
pub open spec fn v3_valid(a: V3) -> bool {
    in_range(a.x) && in_range(a.y) && in_range(a.z)
}

/// The zero vector.
pub open spec fn v3_zero() -> V3 {
    V3 { x: 0, y: 0, z: 0 }
}

/// Component-wise sum.
pub open spec fn v3_add(a: V3, b: V3) -> V3 {
    V3 { x: fx_add(a.x, b.x), y: fx_add(a.y, b.y), z: fx_add(a.z, b.z) }
}

/// Component-wise difference.
pub open spec fn v3_sub(a: V3, b: V3) -> V3 {
    V3 { x: fx_sub(a.x, b.x), y: fx_sub(a.y, b.y), z: fx_sub(a.z, b.z) }
}

/// Component-wise product.
pub open spec fn v3_mul(a: V3, b: V3) -> V3 {
    V3 { x: fx_mul(a.x, b.x), y: fx_mul(a.y, b.y), z: fx_mul(a.z, b.z) }
}

/// Negation.
pub open spec fn v3_neg(a: V3) -> V3 {
    V3 { x: fx_neg(a.x), y: fx_neg(a.y), z: fx_neg(a.z) }
}

/// Product with the scalar `k`.
pub open spec fn v3_scale(a: V3, k: int) -> V3 {
    V3 { x: fx_mul(a.x, k), y: fx_mul(a.y, k), z: fx_mul(a.z, k) }
}

/// Quotient by the scalar `k`, for `k != 0`.
pub open spec fn v3_div(a: V3, k: int) -> V3 {
    V3 { x: fx_div(a.x, k), y: fx_div(a.y, k), z: fx_div(a.z, k) }
}

/// Dot product, rounded once.
pub open spec fn v3_dot(a: V3, b: V3) -> int {
    fx_dot3(a.x, b.x, a.y, b.y, a.z, b.z)
}

/// Cross product, each component rounded once.
pub open spec fn v3_cross(a: V3, b: V3) -> V3 {
    V3 {
        x: fx_mul_sub(a.y, b.z, a.z, b.y),
        y: fx_mul_sub(a.z, b.x, a.x, b.z),
        z: fx_mul_sub(a.x, b.y, a.y, b.x),
    }
}

/// Squared length.
pub open spec fn v3_length_squared(a: V3) -> int {
    v3_dot(a, a)
}

/// Length: the Euclidean norm of the raw components, rounded down.
pub open spec fn v3_length(a: V3) -> int {
    fx_norm3(a.x, a.y, a.z)
}

/// Product with the whole number `n`; nothing is rounded.
pub open spec fn v3_times(a: V3, n: int) -> V3 {
    V3 { x: fx_times(a.x, n), y: fx_times(a.y, n), z: fx_times(a.z, n) }
}

/// The largest magnitude among the components.
pub open spec fn v3_reach(a: V3) -> int {
    fx_max(fx_max(magnitude(a.x), magnitude(a.y)), magnitude(a.z))
}

/// The vector brought to ordinary size: multiplied by the power of two that
/// brings its largest component to between one half and one, where that
/// component is smaller; the vector itself otherwise. Nothing is rounded.
pub open spec fn v3_grown(a: V3) -> V3 {
    v3_times(a, growth(v3_reach(a)))
}

/// The vector divided by its length as it stands, for a vector whose length
/// is not zero.
pub open spec fn v3_over_length(a: V3) -> V3 {
    v3_div(a, v3_length(a))
}

/// The vector of length one along `a`, for a vector that is not zero: `a` is
/// brought to ordinary size first and then divided by its length, so that the
/// rounding of the length does not tell on short vectors.
pub open spec fn v3_unit(a: V3) -> V3 {
    v3_over_length(v3_grown(a))
}

/// The vector of length one along `a`; the zero vector is left as it is.
pub open spec fn v3_normalized(a: V3) -> V3 {
    if v3_length(a) == 0 {
        a
    } else {
        v3_unit(a)
    }
}

/// Mirror image of `v` about the plane with normal `n`: `v - 2 (v . n) n`.
pub open spec fn v3_reflect(v: V3, n: V3) -> V3 {
    let d = v3_dot(v, n);
    v3_sub(v, v3_scale(n, fx_add(d, d)))
}

/// Whether every component is below the vanishing bound in magnitude.
pub open spec fn v3_near_zero(a: V3) -> bool {
    magnitude(a.x) < NEAR_ZERO_RAW && magnitude(a.y) < NEAR_ZERO_RAW && magnitude(a.z)
        < NEAR_ZERO_RAW
}

/// Whether every component lies in `[0, 1)`.
pub open spec fn in_unit_cube(u: V3) -> bool {
    0 <= u.x < scale() && 0 <= u.y < scale() && 0 <= u.z < scale()
}

/// The point of the box `[min, max)^3` at the relative position `u`:
/// `min + (max - min) u` in each component.
pub open spec fn v3_spread(min: int, max: int, u: V3) -> V3 {
    V3 {
        x: fx_add(min, fx_mul(fx_sub(max, min), u.x)),
        y: fx_add(min, fx_mul(fx_sub(max, min), u.y)),
        z: fx_add(min, fx_mul(fx_sub(max, min), u.z)),
    }
}

/// Whether the squared length is below one.
pub open spec fn in_unit_sphere(p: V3) -> bool {
    v3_length_squared(p) < scale()
}

/// Whether the vector lies in the plane `z = 0` with a squared length below one.
pub open spec fn in_unit_disk(p: V3) -> bool {
    p.z == 0 && v3_length_squared(p) < scale()
}

/// Whether `p` is a point of the box `[-1, 1)^3`, at some relative position
/// of the unit cube.
pub open spec fn in_centered_box(p: V3) -> bool {
    exists|u: V3| #[trigger] in_unit_cube(u) && p == v3_spread(-scale(), scale(), u)
}

/// `p` with its third component replaced by zero.
pub open spec fn v3_flat(p: V3) -> V3 {
    V3 { x: p.x, y: p.y, z: 0 }
}

/// `p` turned into the half-space that `normal` points to: `p` where
/// `p . normal > 0`, else `-p`.
pub open spec fn v3_toward(p: V3, normal: V3) -> V3 {
    if v3_dot(p, normal) > 0 {
        p
    } else {
        v3_neg(p)
    }
}

/// Number of draws after which rejection sampling gives up and returns the
/// zero vector.
pub const MAX_DRAWS: u32 = 128;

/// A vector of three fixed-point components.
#[derive(Clone, Copy, Debug, PartialEq, Eq)]
pub struct Vec3 {
    pub x: Fixed,
    pub y: Fixed,
    pub z: Fixed,
}

/// A colour: red, green and blue in `x`, `y` and `z`.
pub type Color = Vec3;

/// A point in space.
pub type Point3 = Vec3;

impl View for Vec3 {
    type V = V3;

    open spec fn view(&self) -> V3 {
        V3 { x: self.x@, y: self.y@, z: self.z@ }
    }
}

impl Vec3 {
    /// The model of every vector is valid.
    pub proof fn lemma_valid(self)
        ensures
            v3_valid(self@),
    {
        self.x.lemma_in_range();
        self.y.lemma_in_range();
        self.z.lemma_in_range();
    }

    /// The vector with the given components.
    pub fn new(x: Fixed, y: Fixed, z: Fixed) -> (r: Vec3)
        ensures
            r == (Vec3 { x, y, z }),
    {
        Vec3 { x, y, z }
    }

    /// The zero vector.
    pub fn zero() -> (r: Vec3)
        ensures
            r@ == v3_zero(),
    {
        Vec3 { x: Fixed::zero(), y: Fixed::zero(), z: Fixed::zero() }
    }

    /// A random vector of the unit cube `[0, 1)^3`.
    pub fn random() -> (r: Vec3)
        ensures
            in_unit_cube(r@),
    {
        let x = random_fraction();
        let y = random_fraction();
        let z = random_fraction();
        Vec3 { x, y, z }
    }

    /// The point of the box `[min, max)^3` at the relative position `u`.
    pub fn spread(min: Fixed, max: Fixed, u: Vec3) -> (r: Vec3)
        ensures
            r@ == v3_spread(min@, max@, u@),
    {
        let width = max.sub(min);
        Vec3 {
            x: min.add(width.mul(u.x)),
            y: min.add(width.mul(u.y)),
            z: min.add(width.mul(u.z)),
        }
    }

    /// A random vector of the box `[min, max)^3`.
    pub fn random_range(min: Fixed, max: Fixed) -> (r: Vec3)
        ensures
            exists|u: V3| #[trigger] in_unit_cube(u) && r@ == v3_spread(min@, max@, u),
    {
        let u = Vec3::random();
        Vec3::spread(min, max, u)
    }

    /// A random point inside the unit sphere, found by rejection: points of
    /// `[-1, 1)^3` are drawn until one has a squared length below one. After
    /// [`MAX_DRAWS`] rejected points the centre is returned.
    pub fn random_in_unit_sphere() -> (r: Vec3)
        ensures
            in_unit_sphere(r@),
            r@ == v3_zero() || in_centered_box(r@),
    {
        let one = Fixed::one();
        let mut draws: u32 = 0;
        while draws < MAX_DRAWS
            invariant
                one@ == scale(),
            decreases MAX_DRAWS - draws,
        {
            let p = Vec3::random_range(one.neg(), one);
            if p.length_squared().lt(one) {
                return p;
            }
            draws = draws + 1;
        }
        Vec3::zero()
    }

    /// A random point inside the unit disk of the plane `z = 0`, found by
    /// rejection as in [`Vec3::random_in_unit_sphere`].
    pub fn random_in_unit_disk() -> (r: Vec3)
        ensures
            in_unit_disk(r@),
            r@ == v3_zero() || exists|q: V3| #[trigger] in_centered_box(q) && r@ == v3_flat(q),
    {
        let one = Fixed::one();
        let mut draws: u32 = 0;
        while draws < MAX_DRAWS
            invariant
                one@ == scale(),
            decreases MAX_DRAWS - draws,
        {
            let q = Vec3::random_range(one.neg(), one);
            let p = Vec3 { x: q.x, y: q.y, z: Fixed::zero() };
            if p.length_squared().lt(one) {
                assert(in_centered_box(q@) && p@ == v3_flat(q@));
                return p;
            }
            draws = draws + 1;
        }
        Vec3::zero()
    }

    /// A random direction: a point inside the unit sphere, normalized. It is
    /// the zero vector, where that was drawn, or has the length one within
    /// 10^-5.
    pub fn random_unit_vector() -> (r: Vec3)
        ensures
            exists|p: V3| in_unit_sphere(p) && r@ == v3_normalized(p),
            r@ == v3_zero() || scale() - 2 <= v3_length(r@) <= scale() + UNIT_TOLERANCE_RAW,
    {
        let p = Vec3::random_in_unit_sphere();
        proof {
            lemma_in_unit_sphere_length(p@);
        }
        p.normalized()
    }

    /// `self` turned into the half-space that `normal` points to.
    pub fn toward(self, normal: &Vec3) -> (r: Vec3)
        ensures
            r@ == v3_toward(self@, normal@),
    {
        if Fixed::zero().lt(self.dot(normal)) {
            self
        } else {
            self.neg()
        }
    }

    /// A random point inside the unit sphere, on the side of `normal`.
    pub fn random_in_hemisphere(normal: &Vec3) -> (r: Vec3)
        ensures
            exists|p: V3| in_unit_sphere(p) && r@ == v3_toward(p, normal@),
    {
        let p = Vec3::random_in_unit_sphere();
        p.toward(normal)
    }

    /// First component.
    pub fn x(&self) -> (r: Fixed)
        ensures
            r == self.x,
    {
        self.x
    }

    /// Second component.
    pub fn y(&self) -> (r: Fixed)
        ensures
            r == self.y,
    {
        self.y
    }

    /// Third component.
    pub fn z(&self) -> (r: Fixed)
        ensures
            r == self.z,
    {
        self.z
    }

    /// Component-wise sum.
    pub fn add(self, other: Vec3) -> (r: Vec3)
        ensures
            r@ == v3_add(self@, other@),
    {
        Vec3 { x: self.x.add(other.x), y: self.y.add(other.y), z: self.z.add(other.z) }
    }

    /// Component-wise difference.
    pub fn sub(self, other: Vec3) -> (r: Vec3)
        ensures
            r@ == v3_sub(self@, other@),
    {
        Vec3 { x: self.x.sub(other.x), y: self.y.sub(other.y), z: self.z.sub(other.z) }
    }

    /// Component-wise product.
    pub fn mul(self, other: Vec3) -> (r: Vec3)
        ensures
            r@ == v3_mul(self@, other@),
    {
        Vec3 { x: self.x.mul(other.x), y: self.y.mul(other.y), z: self.z.mul(other.z) }
    }

    /// Negation.
    pub fn neg(self) -> (r: Vec3)
        ensures
            r@ == v3_neg(self@),
    {
        Vec3 { x: self.x.neg(), y: self.y.neg(), z: self.z.neg() }
    }

    /// Product with a scalar.
    pub fn scale(self, k: Fixed) -> (r: Vec3)
        ensures
            r@ == v3_scale(self@, k@),
    {
        Vec3 { x: self.x.mul(k), y: self.y.mul(k), z: self.z.mul(k) }
    }

    /// Quotient by a scalar that is not zero.
    pub fn div(self, k: Fixed) -> (r: Vec3)
        requires
            k@ != 0,
        ensures
            r@ == v3_div(self@, k@),
    {
        Vec3 { x: self.x.div(k), y: self.y.div(k), z: self.z.div(k) }
    }

    /// Length.
    pub fn length(&self) -> (r: Fixed)
        ensures
            r@ == v3_length(self@),
            r@ >= 0,
    {
        Fixed::norm3(self.x, self.y, self.z)
    }

    /// Squared length.
    pub fn length_squared(&self) -> (r: Fixed)
        ensures
            r@ == v3_length_squared(self@),
    {
        self.dot(self)
    }

    /// Dot product.
    pub fn dot(&self, other: &Vec3) -> (r: Fixed)
        ensures
            r@ == v3_dot(self@, other@),
    {
        self.x.dot3(other.x, self.y, other.y, self.z, other.z)
    }

    /// Cross product.
    pub fn cross(&self, other: &Vec3) -> (r: Vec3)
        ensures
            r@ == v3_cross(self@, other@),
    {
        Vec3 {
            x: self.y.mul_sub(other.z, self.z, other.y),
            y: self.z.mul_sub(other.x, self.x, other.z),
            z: self.x.mul_sub(other.y, self.y, other.x),
        }
    }

    /// Mirror image of `self` about the plane with normal `other`.
    pub fn reflect(&self, other: &Vec3) -> (r: Vec3)
        ensures
            r@ == v3_reflect(self@, other@),
    {
        let d = self.dot(other);
        self.sub(other.scale(d.add(d)))
    }

    /// Product with the whole number `n`; nothing is rounded.
    pub fn times(self, n: i64) -> (r: Vec3)
        ensures
            r@ == v3_times(self@, n as int),
    {
        Vec3 { x: self.x.times(n), y: self.y.times(n), z: self.z.times(n) }
    }

    /// The largest magnitude among the components.
    pub fn reach(&self) -> (r: Fixed)
        ensures
            r@ == v3_reach(self@),
    {
        self.x.abs().max(self.y.abs()).max(self.z.abs())
    }

    /// The power of two that brings the vector to ordinary size.
    pub fn growth(&self) -> (f: i64)
        ensures
            f == growth(v3_reach(self@)),
            1 <= f < 0x1_0000_0000,
    {
        self.reach().growth()
    }

    /// The vector brought to ordinary size.
    pub fn grown(self) -> (r: Vec3)
        ensures
            r@ == v3_grown(self@),
    {
        let f = self.growth();
        self.times(f)
    }

    /// The vector of length one along `self`, which must not be zero. The
    /// result has the length one within 10^-5, unless the length of `self`
    /// is the largest number.
    pub fn unit_vector(self) -> (r: Vec3)
        requires
            v3_length(self@) != 0,
        ensures
            r@ == v3_unit(self@),
            v3_length(self@) < limit() ==> scale() - 2 <= v3_length(r@) <= scale()
                + UNIT_TOLERANCE_RAW,
    {
        proof {
            self.lemma_valid();
            lemma_grown(self@);
            if v3_length(self@) < limit() {
                lemma_unit_vector_length(self@);
            }
        }
        let g = self.grown();
        let len = g.length();
        g.div(len)
    }

    /// The vector of length one along `self`, or the zero vector where
    /// `self` is that. The result is zero or has the length one within 10^-5,
    /// unless the length of `self` is the largest number.
    pub fn normalized(self) -> (r: Vec3)
        ensures
            r@ == v3_normalized(self@),
            v3_length(self@) < limit() ==> r@ == v3_zero() || scale() - 2 <= v3_length(r@)
                <= scale() + UNIT_TOLERANCE_RAW,
    {
        let len = self.length();
        if len.is_zero() {
            proof {
                self.lemma_valid();
                lemma_grown(self@);
            }
            self
        } else {
            self.unit_vector()
        }
    }

    /// Whether every component is below 10^-8 in magnitude.
    pub fn near_zero(&self) -> (r: bool)
        ensures
            r == v3_near_zero(self@),
    {
        let small = Fixed::from_raw(NEAR_ZERO_RAW);
        self.x.abs().lt(small) && self.y.abs().lt(small) && self.z.abs().lt(small)
    }
}

} // verus!
