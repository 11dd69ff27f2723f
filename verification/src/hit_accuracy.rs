//! How well a reported hit solves the quadratic of a sphere, and how close to
//! the sphere the hit point lies.

use crate::fixed::{
    fx_sqrt, fx_times, growth, in_range, isqrt, lemma_growth, lemma_isqrt_exists, limit,
    magnitude, scale, tdiv, ORDINARY_RAW,
};
use crate::ray::{ray_at, RayModel};
use crate::sphere::{
    discriminant, far_root, grown_ray, meets, near_parameter, near_root, quadratic_a,
    quadratic_c, quadratic_half_b, ray_growth, sphere_hit, within, SphereModel,
};
use crate::unit_length::{
    lemma_component_bound, lemma_grown, lemma_isqrt_between, lemma_quotient_bracket,
    lemma_product_size_of, lemma_quotient_is_component, lemma_quotients_above,
    lemma_quotients_below, lemma_square_ordered,
};
use crate::vec3::{
    v3_div, v3_grown, v3_length, v3_neg, v3_reach, v3_sub, v3_valid, v3_zero, V3,
};
use vstd::prelude::*;

verus! {

/// What rounding toward zero leaves over is smaller than the divisor.
pub proof fn lemma_tdiv_remainder(n: int, d: int)
    requires
        0 < d,
    ensures
        magnitude(n - tdiv(n, d) * d) < d,
        0 <= n ==> 0 <= n - tdiv(n, d) * d,
{
    let m = magnitude(n);
    vstd::arithmetic::div_mod::lemma_fundamental_div_mod(m, d);
    vstd::arithmetic::div_mod::lemma_mod_pos_bound(m, d);
    let q = m / d;
    assert(q * d == d * q && (-q) * d == -(d * q)) by (nonlinear_arith);
}

/// The algebra behind the residual: with the discriminant, its root and the
/// quotient each known up to what rounding left over, the quadratic at the
/// quotient is made of these leftovers alone. `w` is the root of the
/// discriminant with the sign of the root of the quadratic.
proof fn lemma_residual_identity(
    s: int,
    a: int,
    hb: int,
    c0: int,
    disc: int,
    sq: int,
    w: int,
    t: int,
    rd: int,
    rs: int,
    rt: int,
)
    requires
        w == sq || w == -sq,
        hb * hb - a * c0 == disc * s + rd,
        sq * sq == disc * s - rs,
        (-hb + w) * s == t * a + rt,
    ensures
        a * (s * s * c0 + 2 * s * t * hb + a * t * t) == -(s * s) * (rd + rs) - 2 * s * w * rt
            + rt * rt,
{
    let u = -hb + w;
    let us = u * s;
    let at = a * t;
    let ss = s * s;
    let m = 2 * s * hb;
    let g = s * rt;
    assert(at == t * a) by (nonlinear_arith)
        requires
            at == a * t,
    ;
    assert(w * w == sq * sq) by (nonlinear_arith)
        requires
            w == sq || w == -sq,
    ;
    // a * quadratic, term by term
    let x = ss * c0;
    let y = 2 * s * t * hb;
    let z = a * t * t;
    assert(a * (x + y + z) == a * x + a * y + a * z) by (nonlinear_arith);
    assert(a * x == ss * (a * c0)) by (nonlinear_arith)
        requires
            x == ss * c0,
    ;
    assert(y == m * t) by (nonlinear_arith)
        requires
            y == 2 * s * t * hb,
            m == 2 * s * hb,
    ;
    assert(a * y == m * at) by (nonlinear_arith)
        requires
            y == m * t,
            at == a * t,
    ;
    assert(a * z == at * at) by (nonlinear_arith)
        requires
            z == a * t * t,
            at == a * t,
    ;
    // the quotient in terms of the numerator
    assert(m * at == m * us - m * rt) by (nonlinear_arith)
        requires
            at == us - rt,
    ;
    assert(m * us == ss * (2 * hb * u)) by (nonlinear_arith)
        requires
            m == 2 * s * hb,
            us == u * s,
            ss == s * s,
    ;
    assert(at * at == us * us - 2 * (us * rt) + rt * rt) by (nonlinear_arith)
        requires
            at == us - rt,
    ;
    assert(us * us == ss * (u * u)) by (nonlinear_arith)
        requires
            us == u * s,
            ss == s * s,
    ;
    assert(m * rt == 2 * hb * g) by (nonlinear_arith)
        requires
            m == 2 * s * hb,
            g == s * rt,
    ;
    assert(us * rt == u * g) by (nonlinear_arith)
        requires
            us == u * s,
            g == s * rt,
    ;
    assert(2 * hb * g + 2 * (u * g) == 2 * w * g) by (nonlinear_arith)
        requires
            u == -hb + w,
    ;
    assert(2 * s * w * rt == 2 * w * g) by (nonlinear_arith)
        requires
            g == s * rt,
    ;
    // the numerator in terms of the discriminant
    let ac = a * c0;
    let hu = 2 * hb * u;
    let uu = u * u;
    assert(ss * ac + ss * hu + ss * uu == ss * (ac + hu + uu)) by (nonlinear_arith);
    assert(hu + uu == w * w - hb * hb) by (nonlinear_arith)
        requires
            hu == 2 * hb * u,
            uu == u * u,
            u == -hb + w,
    ;
    assert(ac + hu + uu == -(rd + rs));
    assert(ss * (ac + hu + uu) == -ss * (rd + rs)) by (nonlinear_arith)
        requires
            ac + hu + uu == -(rd + rs),
    ;
}

/// The size of the residual, from the sizes of the leftovers.
proof fn lemma_residual_bound(s: int, a: int, sq: int, w: int, rd: int, rs: int, rt: int)
    requires
        0 < s,
        0 < a,
        0 <= sq,
        w == sq || w == -sq,
        magnitude(rd) < s,
        0 <= rs <= 2 * sq,
        magnitude(rt) < a,
    ensures
        magnitude(-(s * s) * (rd + rs) - 2 * s * w * rt + rt * rt) <= (s * s) * (s + 2 * sq) + 2
            * s * a * sq + a * a,
{
    let ss = s * s;
    let sum = rd + rs;
    let top = s + 2 * sq;
    let e1 = ss * sum;
    assert(0 <= ss) by (nonlinear_arith)
        requires
            ss == s * s,
    ;
    assert(-(ss * top) <= e1 <= ss * top) by (nonlinear_arith)
        requires
            e1 == ss * sum,
            0 <= ss,
            -top <= sum <= top,
    ;
    let wr = w * rt;
    let p = 2 * s;
    assert(-(sq * a) <= wr <= sq * a) by (nonlinear_arith)
        requires
            wr == w * rt,
            -sq <= w <= sq,
            -a < rt < a,
            0 <= sq,
            0 < a,
    ;
    let e2 = p * wr;
    assert(-(p * (sq * a)) <= e2 <= p * (sq * a)) by (nonlinear_arith)
        requires
            e2 == p * wr,
            0 < p,
            -(sq * a) <= wr <= sq * a,
    ;
    assert(2 * s * w * rt == e2) by (nonlinear_arith)
        requires
            e2 == p * wr,
            p == 2 * s,
            wr == w * rt,
    ;
    assert(2 * s * a * sq == p * (sq * a)) by (nonlinear_arith)
        requires
            p == 2 * s,
    ;
    let e3 = rt * rt;
    assert(0 <= e3 <= a * a) by (nonlinear_arith)
        requires
            e3 == rt * rt,
            -a < rt < a,
    ;
    assert(-(s * s) * (rd + rs) == -e1) by (nonlinear_arith)
        requires
            e1 == ss * sum,
            ss == s * s,
            sum == rd + rs,
    ;
    assert((s * s) * (s + 2 * sq) == ss * top);
}

/// The quadratic `a t^2 + 2 half_b t + c` of a sphere and a ray at the raw
/// parameter `t`, in units of 2^-96: each coefficient is brought to the same
/// scale.
pub open spec fn quadratic_at(s: SphereModel, r: RayModel, t: int) -> int {
    scale() * scale() * quadratic_c(s, r) + 2 * scale() * t * quadratic_half_b(s, r)
        + quadratic_a(r) * t * t
}

/// Whether neither the discriminant nor the numerators of the two roots left
/// the range of the numbers.
pub open spec fn roots_unsaturated(s: SphereModel, r: RayModel) -> bool {
    let hb = quadratic_half_b(s, r);
    let sq = fx_sqrt(discriminant(s, r));
    &&& discriminant(s, r) < limit()
    &&& in_range(-hb - sq)
    &&& in_range(-hb + sq)
}

/// Whether `t` is one of the two roots that the quadratic of the sphere and
/// the ray has, taken as it came out of the division.
pub open spec fn is_root(s: SphereModel, r: RayModel, t: int) -> bool {
    &&& meets(s, r)
    &&& t == near_root(s, r) || t == far_root(s, r)
    &&& -limit() < t < limit()
}

/// The parameter of a reported hit solves the quadratic of the sphere up to
/// rounding: `a` times the quadratic at the parameter is at most
/// `2^64 (1 + 2 sqrt(disc)) + 2^33 a sqrt(disc) + a^2` in raw values, where the
/// computation did not leave the range of the numbers.
pub proof fn lemma_hit_solves_quadratic(s: SphereModel, r: RayModel, t: int)
    requires
        is_root(s, r, t),
        roots_unsaturated(s, r),
    ensures
        ({
            let a = quadratic_a(r);
            let sq = fx_sqrt(discriminant(s, r));
            a * magnitude(quadratic_at(s, r, t)) <= (scale() * scale()) * (scale() + 2 * sq) + 2
                * scale() * a * sq + a * a
        }),
{
    let k = scale();
    let a = quadratic_a(r);
    let hb = quadratic_half_b(s, r);
    let c0 = quadratic_c(s, r);
    let disc = discriminant(s, r);
    let sq = fx_sqrt(disc);
    let nd = hb * hb - a * c0;
    assert(meets(s, r));
    lemma_tdiv_remainder(nd, k);
    assert(disc == tdiv(nd, k));
    let rd = nd - disc * k;
    assert(0 <= disc * k) by (nonlinear_arith)
        requires
            0 <= disc,
            k == 0x1_0000_0000,
    ;
    lemma_isqrt_exists(disc * k);
    let rs = disc * k - sq * sq;
    assert((sq + 1) * (sq + 1) == sq * sq + 2 * sq + 1) by (nonlinear_arith);
    let w: int = if t == near_root(s, r) {
        -sq
    } else {
        sq
    };
    let n = -hb + w;
    assert(in_range(hb));
    assert(t == near_root(s, r) || t == far_root(s, r));
    assert(t == tdiv(n * k, a));
    lemma_tdiv_remainder(n * k, a);
    let rt = n * k - t * a;
    lemma_residual_identity(k, a, hb, c0, disc, sq, w, t, rd, rs, rt);
    lemma_residual_bound(k, a, sq, w, rd, rs, rt);
    let q = quadratic_at(s, r, t);
    assert(q == k * k * c0 + 2 * k * t * hb + a * t * t);
    let e = -(k * k) * (rd + rs) - 2 * k * w * rt + rt * rt;
    assert(a * q == e);
    assert(a * magnitude(q) == magnitude(a * q)) by (nonlinear_arith)
        requires
            0 < a,
    ;
}

/// One component of the hit point: with `d t = delta s + rho`, the square
/// of `oc + delta`, scaled by `s^2`, is the square of the exact component
/// `x = s oc + d t` up to terms in what rounding left over.
proof fn lemma_component_square(s: int, oc: int, d: int, t: int, delta: int, rho: int)
    requires
        d * t == delta * s + rho,
    ensures
        (s * s) * ((oc + delta) * (oc + delta)) == (s * s) * (oc * oc) + (2 * s * t) * (oc * d)
            + (t * t) * (d * d) - 2 * ((s * oc + d * t) * rho) + rho * rho,
{
    let w = oc + delta;
    let dt = d * t;
    let so = s * oc;
    let x = so + dt;
    let sw = s * w;
    assert(sw == x - rho) by (nonlinear_arith)
        requires
            sw == s * w,
            w == oc + delta,
            x == so + dt,
            so == s * oc,
            dt == delta * s + rho,
    ;
    assert((s * s) * (w * w) == sw * sw) by (nonlinear_arith)
        requires
            sw == s * w,
    ;
    assert(sw * sw == x * x - 2 * (x * rho) + rho * rho) by (nonlinear_arith)
        requires
            sw == x - rho,
    ;
    assert(x * x == so * so + 2 * (so * dt) + dt * dt) by (nonlinear_arith)
        requires
            x == so + dt,
    ;
    assert(so * so == (s * s) * (oc * oc)) by (nonlinear_arith)
        requires
            so == s * oc,
    ;
    let od = oc * d;
    let st = s * t;
    assert(so * dt == st * od) by (nonlinear_arith)
        requires
            so == s * oc,
            dt == d * t,
            od == oc * d,
            st == s * t,
    ;
    assert((2 * s * t) * od == 2 * (st * od)) by (nonlinear_arith)
        requires
            st == s * t,
    ;
    assert(dt * dt == (t * t) * (d * d)) by (nonlinear_arith)
        requires
            dt == d * t,
    ;
}

/// The squared distance of `p` from `c`, exactly, in squares of units.
pub open spec fn squared_distance(p: V3, c: V3) -> int {
    (p.x - c.x) * (p.x - c.x) + (p.y - c.y) * (p.y - c.y) + (p.z - c.z) * (p.z - c.z)
}

/// The exact component `2^32 (o - c) + d t` of the hit point from the
/// centre, before the product `d t` is rounded.
pub open spec fn exact_offset(o: int, c: int, d: int, t: int) -> int {
    scale() * (o - c) + d * t
}

/// Bound on `a 2^64 (|p - c|^2 - radius^2)` for a hit at the raw parameter
/// `t`, where `a` is the squared length of the direction: what the rounding
/// of the discriminant, of its root and of the quotient can add up to, plus
/// `a` times what the rounding of the coefficients and of the hit point can.
pub open spec fn hit_error_bound(s: SphereModel, r: RayModel, t: int) -> int {
    let k = scale();
    let a = quadratic_a(r);
    let sq = fx_sqrt(discriminant(s, r));
    let offsets = magnitude(exact_offset(r.origin.x, s.center.x, r.direction.x, t)) + magnitude(
        exact_offset(r.origin.y, s.center.y, r.direction.y, t),
    ) + magnitude(exact_offset(r.origin.z, s.center.z, r.direction.z, t));
    k * ((k * k) * (k + 2 * sq) + 2 * k * a * sq + a * a) + a * (k * k * k + 2 * (k * k)
        * magnitude(t) + k * (t * t) + 2 * k * offsets + 3 * (k * k))
}

/// Whether no step of the intersection at the raw parameter `t` left the
/// range of the numbers: the differences of origin and centre, the three
/// coefficients, the discriminant, the numerators of the roots, and the hit
/// point and its difference from the centre.
pub open spec fn hit_unsaturated(s: SphereModel, r: RayModel, t: int) -> bool {
    let o = r.origin;
    let c = s.center;
    let d = r.direction;
    let ocx = o.x - c.x;
    let ocy = o.y - c.y;
    let ocz = o.z - c.z;
    let dx = tdiv(d.x * t, scale());
    let dy = tdiv(d.y * t, scale());
    let dz = tdiv(d.z * t, scale());
    &&& v3_valid(o) && v3_valid(c) && v3_valid(d) && in_range(s.radius)
    &&& in_range(ocx) && in_range(ocy) && in_range(ocz)
    &&& in_range(tdiv(d.x * d.x + d.y * d.y + d.z * d.z, scale()))
    &&& in_range(tdiv(ocx * d.x + ocy * d.y + ocz * d.z, scale()))
    &&& in_range(tdiv(ocx * ocx + ocy * ocy + ocz * ocz, scale()))
    &&& in_range(tdiv(s.radius * s.radius, scale()))
    &&& in_range(
        tdiv(ocx * ocx + ocy * ocy + ocz * ocz, scale()) - tdiv(s.radius * s.radius, scale()),
    )
    &&& roots_unsaturated(s, r)
    &&& in_range(dx) && in_range(dy) && in_range(dz)
    &&& in_range(o.x + dx) && in_range(o.y + dy) && in_range(o.z + dz)
    &&& in_range(o.x + dx - c.x) && in_range(o.y + dy - c.y) && in_range(o.z + dz - c.z)
}

/// The hit point lies on the sphere up to rounding: the squared distance of
/// a reported hit point from the centre differs from the squared radius by
/// no more than [`hit_error_bound`] allows, where no step of the intersection
/// left the range of the numbers.
pub proof fn lemma_hit_point_on_sphere(s: SphereModel, r: RayModel, t: int)
    requires
        is_root(s, r, t),
        hit_unsaturated(s, r, t),
    ensures
        quadratic_a(r) * (scale() * scale()) * magnitude(
            squared_distance(ray_at(r, t), s.center) - s.radius * s.radius,
        ) <= hit_error_bound(s, r, t),
{
    let k = scale();
    let point = ray_at(r, t);
    let o = r.origin;
    let c = s.center;
    let d = r.direction;
    let rad = s.radius;
    let a = quadratic_a(r);
    let hb = quadratic_half_b(s, r);
    let c0 = quadratic_c(s, r);
    let sq = fx_sqrt(discriminant(s, r));
    let ocx = o.x - c.x;
    let ocy = o.y - c.y;
    let ocz = o.z - c.z;
    // the coefficients and what their rounding left over
    let na = d.x * d.x + d.y * d.y + d.z * d.z;
    let nb = ocx * d.x + ocy * d.y + ocz * d.z;
    let no = ocx * ocx + ocy * ocy + ocz * ocz;
    let nr = rad * rad;
    let lo = tdiv(no, k);
    let rr = tdiv(nr, k);
    assert(a == tdiv(na, k));
    assert(hb == tdiv(nb, k));
    assert(c0 == lo - rr);
    lemma_tdiv_remainder(na, k);
    lemma_tdiv_remainder(nb, k);
    lemma_tdiv_remainder(no, k);
    lemma_tdiv_remainder(nr, k);
    let ra = na - a * k;
    let rb = nb - hb * k;
    let ro = no - lo * k;
    let rq = nr - rr * k;
    assert(0 <= no && 0 <= nr && 0 <= na) by (nonlinear_arith)
        requires
            no == ocx * ocx + ocy * ocy + ocz * ocz,
            nr == rad * rad,
            na == d.x * d.x + d.y * d.y + d.z * d.z,
    ;
    // the hit point and what its rounding left over
    let dx = tdiv(d.x * t, k);
    let dy = tdiv(d.y * t, k);
    let dz = tdiv(d.z * t, k);
    lemma_tdiv_remainder(d.x * t, k);
    lemma_tdiv_remainder(d.y * t, k);
    lemma_tdiv_remainder(d.z * t, k);
    let rx = d.x * t - dx * k;
    let ry = d.y * t - dy * k;
    let rz = d.z * t - dz * k;
    assert(point.x - c.x == ocx + dx);
    assert(point.y - c.y == ocy + dy);
    assert(point.z - c.z == ocz + dz);
    lemma_component_square(k, ocx, d.x, t, dx, rx);
    lemma_component_square(k, ocy, d.y, t, dy, ry);
    lemma_component_square(k, ocz, d.z, t, dz, rz);
    let g = squared_distance(point, c);
    let xx = exact_offset(o.x, c.x, d.x, t);
    let xy = exact_offset(o.y, c.y, d.y, t);
    let xz = exact_offset(o.z, c.z, d.z, t);
    let kk = k * k;
    let tt = t * t;
    let wx = (ocx + dx) * (ocx + dx);
    let wy = (ocy + dy) * (ocy + dy);
    let wz = (ocz + dz) * (ocz + dz);
    assert(g == wx + wy + wz);
    assert(kk * g == kk * wx + kk * wy + kk * wz) by (nonlinear_arith)
        requires
            g == wx + wy + wz,
    ;
    let point_left = rx * rx + ry * ry + rz * rz - 2 * (xx * rx) - 2 * (xy * ry) - 2 * (xz * rz);
    let st2 = 2 * k * t;
    assert(kk * no == kk * (ocx * ocx) + kk * (ocy * ocy) + kk * (ocz * ocz)) by (nonlinear_arith)
        requires
            no == ocx * ocx + ocy * ocy + ocz * ocz,
    ;
    assert(st2 * nb == st2 * (ocx * d.x) + st2 * (ocy * d.y) + st2 * (ocz * d.z))
        by (nonlinear_arith)
        requires
            nb == ocx * d.x + ocy * d.y + ocz * d.z,
    ;
    assert(tt * na == tt * (d.x * d.x) + tt * (d.y * d.y) + tt * (d.z * d.z)) by (nonlinear_arith)
        requires
            na == d.x * d.x + d.y * d.y + d.z * d.z,
    ;
    assert(kk * g == kk * no + st2 * nb + tt * na + point_left);
    // from exact sums to rounded coefficients
    let q = quadratic_at(s, r, t);
    let left = kk * (ro - rq) + st2 * rb + tt * ra + point_left;
    assert(kk * no == kk * k * lo + kk * ro) by (nonlinear_arith)
        requires
            no == lo * k + ro,
    ;
    assert(kk * nr == kk * k * rr + kk * rq) by (nonlinear_arith)
        requires
            nr == rr * k + rq,
    ;
    assert(st2 * nb == st2 * k * hb + st2 * rb) by (nonlinear_arith)
        requires
            nb == hb * k + rb,
    ;
    assert(tt * na == tt * k * a + tt * ra) by (nonlinear_arith)
        requires
            na == a * k + ra,
    ;
    let qc = kk * c0;
    let qb = st2 * hb;
    let qa = a * tt;
    assert(a * t * t == qa) by (nonlinear_arith)
        requires
            qa == a * tt,
            tt == t * t,
    ;
    assert(q == qc + qb + qa);
    assert(k * (qc + qb + qa) == k * qc + k * qb + k * qa) by (nonlinear_arith);
    assert(k * qc == kk * k * c0) by (nonlinear_arith)
        requires
            qc == kk * c0,
    ;
    assert(k * qb == st2 * k * hb) by (nonlinear_arith)
        requires
            qb == st2 * hb,
    ;
    assert(k * qa == tt * k * a) by (nonlinear_arith)
        requires
            qa == a * tt,
    ;
    assert(k * q == kk * k * c0 + st2 * k * hb + tt * k * a);
    assert(kk * k * c0 == kk * k * lo - kk * k * rr) by (nonlinear_arith)
        requires
            c0 == lo - rr,
    ;
    let diff = g - nr;
    assert(kk * diff == kk * g - kk * nr) by (nonlinear_arith)
        requires
            diff == g - nr,
    ;
    assert(kk * diff == k * q + left);
    // the sizes
    lemma_hit_solves_quadratic(s, r, t);
    let b1 = kk * (k + 2 * sq) + 2 * k * a * sq + a * a;
    assert((k * k) * (k + 2 * sq) == kk * (k + 2 * sq));
    lemma_left_bound(k, t, ro, rq, rb, ra, xx, rx, xy, ry, xz, rz);
    let offsets = magnitude(xx) + magnitude(xy) + magnitude(xz);
    let b2 = k * k * k + 2 * (k * k) * magnitude(t) + k * (t * t) + 2 * k * offsets + 3 * (k * k);
    assert(magnitude(left) <= b2);
    let aq = a * q;
    assert(a * (kk * diff) == k * aq + a * left) by (nonlinear_arith)
        requires
            kk * diff == k * q + left,
            aq == a * q,
    ;
    assert(magnitude(aq) == a * magnitude(q)) by (nonlinear_arith)
        requires
            aq == a * q,
            0 < a,
    ;
    assert(magnitude(k * aq) <= k * b1) by (nonlinear_arith)
        requires
            magnitude(aq) <= b1,
            0 < k,
    ;
    assert(magnitude(a * left) <= a * b2) by (nonlinear_arith)
        requires
            magnitude(left) <= b2,
            0 < a,
    ;
    assert(a * kk * magnitude(diff) == magnitude(a * (kk * diff))) by (nonlinear_arith)
        requires
            0 < a,
            0 < kk,
    ;
    assert(hit_error_bound(s, r, t) == k * b1 + a * b2);
}

/// The size of what the rounding of the coefficients and of the hit point
/// leaves over.
proof fn lemma_left_bound(
    k: int,
    t: int,
    ro: int,
    rq: int,
    rb: int,
    ra: int,
    xx: int,
    rx: int,
    xy: int,
    ry: int,
    xz: int,
    rz: int,
)
    requires
        0 < k,
        0 <= ro < k,
        0 <= rq < k,
        magnitude(rb) < k,
        0 <= ra < k,
        magnitude(rx) < k,
        magnitude(ry) < k,
        magnitude(rz) < k,
    ensures
        magnitude(
            (k * k) * (ro - rq) + (2 * k * t) * rb + (t * t) * ra + (rx * rx + ry * ry + rz * rz
                - 2 * (xx * rx) - 2 * (xy * ry) - 2 * (xz * rz)),
        ) <= k * k * k + 2 * (k * k) * magnitude(t) + k * (t * t) + 2 * k * (magnitude(xx)
            + magnitude(xy) + magnitude(xz)) + 3 * (k * k),
{
    let kk = k * k;
    let mt = magnitude(t);
    let e1 = kk * (ro - rq);
    assert(0 < kk) by (nonlinear_arith)
        requires
            kk == k * k,
            0 < k,
    ;
    assert(magnitude(e1) <= kk * k) by (nonlinear_arith)
        requires
            e1 == kk * (ro - rq),
            0 < kk,
            -k < ro - rq < k,
    ;
    let e2 = (2 * k * t) * rb;
    let kt = k * mt;
    assert(magnitude(2 * k * t) == 2 * kt) by (nonlinear_arith)
        requires
            kt == k * mt,
            mt == magnitude(t),
            0 < k,
    ;
    lemma_product_size_of(2 * k * t, rb, 2 * kt, k);
    assert((2 * kt) * k == 2 * kk * mt) by (nonlinear_arith)
        requires
            kt == k * mt,
            kk == k * k,
    ;
    let tt = t * t;
    let e3 = tt * ra;
    assert(0 <= tt) by (nonlinear_arith)
        requires
            tt == t * t,
    ;
    lemma_product_size_of(tt, ra, tt, k);
    assert(tt * k == k * tt) by (nonlinear_arith);
    lemma_product_size_of(xx, rx, magnitude(xx), k);
    lemma_product_size_of(xy, ry, magnitude(xy), k);
    lemma_product_size_of(xz, rz, magnitude(xz), k);
    lemma_product_size_of(rx, rx, k, k);
    lemma_product_size_of(ry, ry, k, k);
    lemma_product_size_of(rz, rz, k, k);
    let mx = magnitude(xx);
    let my = magnitude(xy);
    let mz = magnitude(xz);
    assert(magnitude(e1) <= kk * k);
    assert(magnitude(e2) <= 2 * kk * mt);
    assert(magnitude(e3) <= k * tt);
    assert(magnitude(xx * rx) <= mx * k);
    assert(magnitude(rx * rx) <= kk);
    assert(2 * k * (mx + my + mz) == 2 * (mx * k) + 2 * (my * k) + 2 * (mz * k))
        by (nonlinear_arith);
    assert(k * k * k == kk * k && 2 * (k * k) * mt == 2 * kk * mt && 3 * (k * k) == 3 * kk);
}

/// The distance of `p` from `c`, rounded down to whole units.
pub open spec fn distance(p: V3, c: V3) -> int {
    isqrt(squared_distance(p, c))
}

/// How far, in units, the distance of a hit point from the centre can be from
/// the radius of the sphere: two units and what [`hit_error_bound`] allows for
/// the squared distance, spread over the radius.
pub open spec fn hit_tolerance(s: SphereModel, r: RayModel, t: int) -> int {
    2 + hit_error_bound(s, r, t) / (quadratic_a(r) * (scale() * scale()) * magnitude(s.radius))
}

/// From a bound on the difference of squares to a bound on the difference.
proof fn lemma_root_of_close_square(g: int, l: int, m: int, d: int)
    requires
        0 <= l,
        0 <= m,
        l * l <= g < (l + 1) * (l + 1),
        magnitude(g - m * m) <= d,
    ensures
        magnitude(l - m) * m <= 2 * m + d,
{
    let x = magnitude(l - m);
    assert((l + 1) * (l + 1) == l * l + 2 * l + 1) by (nonlinear_arith);
    assert(x * (l + m) == magnitude(l * l - m * m)) by (nonlinear_arith)
        requires
            x == magnitude(l - m),
            0 <= l,
            0 <= m,
    ;
    assert(x * (l + m) == x * l + x * m) by (nonlinear_arith);
    if x <= 2 {
        assert(x * m <= 2 * m) by (nonlinear_arith)
            requires
                0 <= x <= 2,
                0 <= m,
        ;
    } else {
        assert(2 * l <= x * l) by (nonlinear_arith)
            requires
                2 < x,
                0 <= l,
        ;
    }
}

/// The hit point lies on the sphere within a tolerance: the distance of a
/// reported hit point from the centre differs from the radius by at most
/// [`hit_tolerance`], where no step of the intersection left the range of the
/// numbers.
pub proof fn lemma_hit_point_distance(s: SphereModel, r: RayModel, t: int)
    requires
        s.radius != 0,
        is_root(s, r, t),
        hit_unsaturated(s, r, t),
    ensures
        magnitude(distance(ray_at(r, t), s.center) - magnitude(s.radius)) <= hit_tolerance(
            s,
            r,
            t,
        ),
{
    let k = scale();
    let point = ray_at(r, t);
    let a = quadratic_a(r);
    let m = magnitude(s.radius);
    let g = squared_distance(point, s.center);
    let bound = hit_error_bound(s, r, t);
    lemma_hit_point_on_sphere(s, r, t);
    assert(m * m == s.radius * s.radius) by (nonlinear_arith)
        requires
            m == magnitude(s.radius),
    ;
    assert(0 <= g) by (nonlinear_arith)
        requires
            g == (point.x - s.center.x) * (point.x - s.center.x) + (point.y - s.center.y) * (
            point.y - s.center.y) + (point.z - s.center.z) * (point.z - s.center.z),
    ;
    lemma_isqrt_exists(g);
    let l = isqrt(g);
    let d = magnitude(g - m * m);
    lemma_root_of_close_square(g, l, m, d);
    let x = magnitude(l - m);
    let unit = a * (k * k);
    let weight = unit * m;
    assert(0 < unit && 0 < weight) by (nonlinear_arith)
        requires
            unit == a * (k * k),
            weight == unit * m,
            0 < a,
            0 < k,
            0 < m,
    ;
    assert(unit * d <= bound);
    assert(weight * x <= 2 * weight + bound) by (nonlinear_arith)
        requires
            weight == unit * m,
            x * m <= 2 * m + d,
            unit * d <= bound,
            0 < unit,
    ;
    if x > 2 {
        let y = x - 2;
        assert(y * weight <= bound) by (nonlinear_arith)
            requires
                weight * x <= 2 * weight + bound,
                y == x - 2,
        ;
        vstd::arithmetic::div_mod::lemma_div_is_ordered(y * weight, bound, weight);
        vstd::arithmetic::div_mod::lemma_div_by_multiple(y, weight);
        assert(y <= bound / weight);
    } else {
        assert(0 <= bound) by (nonlinear_arith)
            requires
                unit * d <= bound,
                0 < unit,
                0 <= d,
        ;
        vstd::arithmetic::div_mod::lemma_div_pos_is_pos(bound, weight);
    }
}

/// Whether a hit at the raw parameter `t` is of ordinary size: the direction
/// of the ray is at most 16 long, the parameter at most 32, the root of the
/// discriminant at most 256, the exact hit point within 16 of the centre
/// along each axis, and the radius at least 1/8.
pub open spec fn hit_of_ordinary_size(s: SphereModel, r: RayModel, t: int) -> bool {
    let k = scale();
    &&& quadratic_a(r) <= 256 * k
    &&& magnitude(t) <= 32 * k
    &&& fx_sqrt(discriminant(s, r)) <= 256 * k
    &&& magnitude(exact_offset(r.origin.x, s.center.x, r.direction.x, t)) <= 16 * (k * k)
    &&& magnitude(exact_offset(r.origin.y, s.center.y, r.direction.y, t)) <= 16 * (k * k)
    &&& magnitude(exact_offset(r.origin.z, s.center.z, r.direction.z, t)) <= 16 * (k * k)
    &&& k <= 8 * magnitude(s.radius)
}

/// Raw value of the tolerance of [`lemma_hit_point_within_tolerance`]: 42949
/// units, the largest count of units that is not above 10^-5.
pub const HIT_TOLERANCE_RAW: i64 = 42949;

/// For a hit of ordinary size the error bound is small against the weight
/// `a 2^64` that it is measured in.
proof fn lemma_ordinary_bound(k: int, a: int, sq: int, mt: int, tt: int, offsets: int)
    requires
        k == 0x1_0000_0000,
        k <= 4 * a,
        a <= 256 * k,
        0 <= sq <= 256 * k,
        0 <= mt <= 32 * k,
        tt == mt * mt,
        0 <= offsets <= 48 * (k * k),
    ensures
        k * ((k * k) * (k + 2 * sq) + 2 * k * a * sq + a * a) + a * (k * k * k + 2 * (k * k) * mt
            + k * tt + 2 * k * offsets + 3 * (k * k)) <= (a * (k * k)) * (3750 * k),
{
    let kk = k * k;
    let w = a * kk;
    assert(0 < kk) by (nonlinear_arith)
        requires
            kk == k * k,
            0 < k,
    ;
    assert(0 < w) by (nonlinear_arith)
        requires
            w == a * kk,
            0 < kk,
            0 < a,
    ;
    // what the rounding of discriminant, root and quotient adds
    let top = k + 2 * sq;
    let e1 = k * (kk * top);
    assert(e1 <= w * (4 * top)) by (nonlinear_arith)
        requires
            e1 == k * (kk * top),
            w == a * kk,
            k <= 4 * a,
            0 < kk,
            0 <= top,
    ;
    assert(w * (4 * top) <= w * (2052 * k)) by (nonlinear_arith)
        requires
            0 < w,
            4 * top <= 2052 * k,
    ;
    let e2 = k * (2 * k * a * sq);
    assert(e2 == w * (2 * sq)) by (nonlinear_arith)
        requires
            e2 == k * (2 * k * a * sq),
            w == a * kk,
            kk == k * k,
    ;
    assert(w * (2 * sq) <= w * (512 * k)) by (nonlinear_arith)
        requires
            0 < w,
            2 * sq <= 512 * k,
    ;
    let e3 = k * (a * a);
    assert(e3 <= w * 256) by (nonlinear_arith)
        requires
            e3 == k * (a * a),
            w == a * kk,
            kk == k * k,
            a <= 256 * k,
            0 < a,
            0 < k,
    ;
    assert(k * (kk * top + 2 * k * a * sq + a * a) == e1 + e2 + e3) by (nonlinear_arith)
        requires
            e1 == k * (kk * top),
            e2 == k * (2 * k * a * sq),
            e3 == k * (a * a),
    ;
    // what the rounding of coefficients and hit point adds
    let f1 = k * k * k;
    let f2 = 2 * kk * mt;
    let f3 = k * tt;
    let f4 = 2 * k * offsets;
    let f5 = 3 * kk;
    assert(f1 == kk * k);
    assert(f2 <= kk * (64 * k)) by (nonlinear_arith)
        requires
            f2 == 2 * kk * mt,
            0 < kk,
            mt <= 32 * k,
    ;
    assert(tt <= (32 * k) * (32 * k)) by (nonlinear_arith)
        requires
            tt == mt * mt,
            0 <= mt <= 32 * k,
    ;
    assert(f3 <= kk * (1024 * k)) by (nonlinear_arith)
        requires
            f3 == k * tt,
            tt <= (32 * k) * (32 * k),
            kk == k * k,
            0 < k,
    ;
    assert(f4 <= kk * (96 * k)) by (nonlinear_arith)
        requires
            f4 == 2 * k * offsets,
            offsets <= 48 * kk,
            kk == k * k,
            0 < k,
    ;
    let b2 = f1 + f2 + f3 + f4 + f5;
    assert(b2 <= kk * (1185 * k + 3)) by (nonlinear_arith)
        requires
            b2 == f1 + f2 + f3 + f4 + f5,
            f1 == kk * k,
            f2 <= kk * (64 * k),
            f3 <= kk * (1024 * k),
            f4 <= kk * (96 * k),
            f5 == 3 * kk,
    ;
    assert(a * b2 <= w * (1185 * k + 3)) by (nonlinear_arith)
        requires
            b2 <= kk * (1185 * k + 3),
            w == a * kk,
            0 < a,
    ;
    let total = w * (2052 * k) + w * (512 * k) + w * 256 + w * (1185 * k + 3);
    assert(total == w * (3749 * k + 259)) by (nonlinear_arith)
        requires
            total == w * (2052 * k) + w * (512 * k) + w * 256 + w * (1185 * k + 3),
    ;
    assert(w * (3749 * k + 259) <= w * (3750 * k)) by (nonlinear_arith)
        requires
            0 < w,
            259 <= k,
    ;
    assert((k * k) * (k + 2 * sq) == kk * top);
    assert(2 * (k * k) * mt == f2);
    assert(3 * (k * k) == f5);
}

/// For a hit of ordinary size the point of the hit lies on the sphere within
/// 10^-5: its distance from the centre differs from the radius by no more,
/// where no step of the intersection left the range of the numbers.
pub proof fn lemma_hit_point_within_tolerance(s: SphereModel, r: RayModel, t: int)
    requires
        is_root(s, r, t),
        hit_unsaturated(s, r, t),
        hit_of_ordinary_size(s, r, t),
        scale() <= 4 * quadratic_a(r),
    ensures
        magnitude(distance(ray_at(r, t), s.center) - magnitude(s.radius)) <= HIT_TOLERANCE_RAW,
{
    let k = scale();
    let a = quadratic_a(r);
    let m = magnitude(s.radius);
    let sq = fx_sqrt(discriminant(s, r));
    let mt = magnitude(t);
    let offsets = magnitude(exact_offset(r.origin.x, s.center.x, r.direction.x, t)) + magnitude(
        exact_offset(r.origin.y, s.center.y, r.direction.y, t),
    ) + magnitude(exact_offset(r.origin.z, s.center.z, r.direction.z, t));
    lemma_hit_point_distance(s, r, t);
    assert(0 <= discriminant(s, r) * k) by (nonlinear_arith)
        requires
            0 <= discriminant(s, r),
            k == 0x1_0000_0000,
    ;
    lemma_isqrt_exists(discriminant(s, r) * k);
    assert(mt * mt == t * t) by (nonlinear_arith)
        requires
            mt == magnitude(t),
    ;
    lemma_ordinary_bound(k, a, sq, mt, t * t, offsets);
    let bound = hit_error_bound(s, r, t);
    let unit = a * (k * k);
    let weight = unit * m;
    assert(bound <= unit * (3750 * k));
    assert(unit * (3750 * k) <= weight * 30000) by (nonlinear_arith)
        requires
            weight == unit * m,
            k <= 8 * m,
            0 < unit,
    ;
    assert(0 < weight) by (nonlinear_arith)
        requires
            weight == unit * m,
            0 < unit,
            0 < m,
    ;
    vstd::arithmetic::div_mod::lemma_div_is_ordered(bound, 30000 * weight, weight);
    vstd::arithmetic::div_mod::lemma_div_by_multiple(30000, weight);
    assert(weight * 30000 == 30000 * weight) by (nonlinear_arith);
}

/// Raw value of the tolerance on the length of a stored normal: 429496 units,
/// the largest count of units that is not above 10^-4.
pub const NORMAL_TOLERANCE_RAW: i64 = 429496;

/// The root for the ray of ordinary size that stands behind a reported hit:
/// the smaller one where the smaller parameter lies in the interval, else the
/// larger one.
pub open spec fn hit_root(s: SphereModel, r: RayModel, t_min: int, t_max: int) -> int {
    if within(near_parameter(s, r), t_min, t_max) {
        near_root(s, grown_ray(r))
    } else {
        far_root(s, grown_ray(r))
    }
}

/// A ray of ordinary size with a direction has a squared length of at least
/// one quarter.
pub proof fn lemma_grown_ray_a(r: RayModel)
    requires
        v3_valid(r.direction),
        quadratic_a(grown_ray(r)) > 0,
    ensures
        scale() <= 4 * quadratic_a(grown_ray(r)),
{
    let d = r.direction;
    let g = v3_grown(d);
    lemma_grown(d);
    let sum = g.x * g.x + g.y * g.y + g.z * g.z;
    assert(0 <= g.x * g.x && 0 <= g.y * g.y && 0 <= g.z * g.z) by (nonlinear_arith);
    if d == v3_zero() {
        assert(0 * growth(v3_reach(d)) == 0) by (nonlinear_arith);
        assert(0 * 0 == 0int);
    } else {
        lemma_isqrt_exists(sum);
        let l = isqrt(sum);
        lemma_square_ordered(ORDINARY_RAW as int, l);
        assert((ORDINARY_RAW as int) * (ORDINARY_RAW as int) == 0x4000_0000_0000_0000)
            by (nonlinear_arith);
        vstd::arithmetic::div_mod::lemma_div_is_ordered(0x4000_0000_0000_0000, sum, scale());
        assert(0x4000_0000_0000_0000int / 0x1_0000_0000 == 0x4000_0000);
    }
}

/// A reported hit in terms of the ray of ordinary size: its parameter is the
/// root times the growth, and its point is the point of that ray at the
/// root.
pub proof fn lemma_hit_of_grown_ray(s: SphereModel, r: RayModel, t_min: int, t_max: int)
    requires
        sphere_hit(s, r, t_min, t_max) is Some,
        in_range(t_min),
        in_range(t_max),
        v3_valid(r.direction),
    ensures
        is_root(s, grown_ray(r), hit_root(s, r, t_min, t_max)),
        sphere_hit(s, r, t_min, t_max).unwrap().t == hit_root(s, r, t_min, t_max) * ray_growth(r),
        sphere_hit(s, r, t_min, t_max).unwrap().p == ray_at(
            grown_ray(r),
            hit_root(s, r, t_min, t_max),
        ),
        scale() <= 4 * quadratic_a(grown_ray(r)),
{
    let h = sphere_hit(s, r, t_min, t_max).unwrap();
    let g = grown_ray(r);
    let f = ray_growth(r);
    let t = hit_root(s, r, t_min, t_max);
    let d = r.direction;
    lemma_growth(v3_reach(d));
    lemma_grown(d);
    lemma_grown_ray_a(r);
    assert(h.t == fx_times(t, f));
    assert(h.t == t * f);
    assert(magnitude(t) <= magnitude(t * f)) by (nonlinear_arith)
        requires
            1 <= f,
    ;
    assert(d.x * (t * f) == (d.x * f) * t && d.y * (t * f) == (d.y * f) * t && d.z * (t * f) == (
    d.z * f) * t) by (nonlinear_arith);
    assert(h.p == ray_at(r, h.t));
}

/// A quotient of a magnitude of at most `2 r` by `r` is at most twice the
/// scale.
proof fn lemma_quotient_at_most_two(a: int, m: int, k: int, r: int)
    requires
        0 <= m <= 2 * r,
        0 < r,
        0 < k,
        a * r <= m * k,
    ensures
        a <= 2 * k,
{
    if a > 2 * k {
        assert(a * r > m * k) by (nonlinear_arith)
            requires
                a >= 2 * k + 1,
                0 <= m <= 2 * r,
                0 < r,
                0 < k,
        ;
    }
}

/// The outward normal of a point whose distance from the centre differs from
/// the radius by at most `tau` has the length one within `tol + 2` units, as
/// has its negation, for every `tol` that is at least `tau + 1` taken
/// relative to the radius.
pub proof fn lemma_normal_length(w: V3, radius: int, tau: int, tol: int)
    requires
        radius != 0,
        0 <= tau,
        0 <= tol <= scale() - 2,
        (tau + 1) * scale() <= tol * magnitude(radius),
        magnitude(isqrt(w.x * w.x + w.y * w.y + w.z * w.z) - magnitude(radius)) <= tau,
    ensures
        magnitude(v3_length(v3_div(w, radius)) - scale()) <= tol + 2,
        magnitude(v3_length(v3_neg(v3_div(w, radius))) - scale()) <= tol + 2,
{
    let k = scale();
    let r = magnitude(radius);
    let sum = w.x * w.x + w.y * w.y + w.z * w.z;
    assert(0 <= w.x * w.x && 0 <= w.y * w.y && 0 <= w.z * w.z) by (nonlinear_arith);
    lemma_isqrt_exists(sum);
    let l = isqrt(sum);
    assert(tau + 1 < r) by (nonlinear_arith)
        requires
            (tau + 1) * k <= tol * r,
            0 <= tol <= k - 2,
            0 < r,
            0 <= tau,
            k == 0x1_0000_0000,
    ;
    lemma_component_bound(w.x, w.y * w.y + w.z * w.z, l);
    lemma_component_bound(w.y, w.x * w.x + w.z * w.z, l);
    lemma_component_bound(w.z, w.x * w.x + w.y * w.y, l);
    let mx = magnitude(w.x);
    let my = magnitude(w.y);
    let mz = magnitude(w.z);
    assert(mx * mx == w.x * w.x && my * my == w.y * w.y && mz * mz == w.z * w.z)
        by (nonlinear_arith)
        requires
            mx == magnitude(w.x),
            my == magnitude(w.y),
            mz == magnitude(w.z),
    ;
    let a = lemma_quotient_bracket(mx, k, r);
    let b = lemma_quotient_bracket(my, k, r);
    let c = lemma_quotient_bracket(mz, k, r);
    // from above
    let e = tau + 1;
    lemma_square_ordered(l + 1, r + e);
    if tol == 0 {
        assert(e * k > 0) by (nonlinear_arith)
            requires
                0 < e,
                k == 0x1_0000_0000,
        ;
        assert(tol * r == 0) by (nonlinear_arith)
            requires
                tol == 0,
        ;
    }
    lemma_quotients_above(a, b, c, mx, my, mz, k, r, e, tol);
    // from below
    let lo = r - tau;
    let kq = k - tol;
    lemma_square_ordered(lo, l);
    assert(kq * r <= k * lo) by (nonlinear_arith)
        requires
            kq == k - tol,
            lo == r - tau,
            (tau + 1) * k <= tol * r,
            0 < k,
    ;
    lemma_quotients_below(a, b, c, mx, my, mz, k, r, kq, lo);
    // the quotients are the components
    lemma_quotient_at_most_two(a, mx, k, r);
    lemma_quotient_at_most_two(b, my, k, r);
    lemma_quotient_at_most_two(c, mz, k, r);
    lemma_quotient_is_component(w.x, radius, a);
    lemma_quotient_is_component(w.y, radius, b);
    lemma_quotient_is_component(w.z, radius, c);
    let out = v3_div(w, radius);
    let q = out.x * out.x + out.y * out.y + out.z * out.z;
    assert(q == a * a + b * b + c * c);
    lemma_isqrt_between(q, kq - 2, k + tol);
    let back = v3_neg(out);
    assert(back.x * back.x == out.x * out.x && back.y * back.y == out.y * out.y && back.z
        * back.z == out.z * out.z) by (nonlinear_arith)
        requires
            back.x == -out.x,
            back.y == -out.y,
            back.z == -out.z,
    ;
}

/// How far, in units, the length of the stored normal of a hit can be from
/// one: two units and the tolerance of the hit point plus one unit, taken
/// relative to the radius and rounded up.
pub open spec fn normal_tolerance(s: SphereModel, r: RayModel, t: int) -> int {
    2 + ((hit_tolerance(s, r, t) + 1) * scale() + magnitude(s.radius) - 1) / magnitude(s.radius)
}

/// A quotient rounded up, times the divisor, is at least the dividend.
proof fn lemma_rounded_up(x: int, m: int)
    requires
        0 <= x,
        0 < m,
    ensures
        x <= ((x + m - 1) / m) * m,
        0 <= (x + m - 1) / m,
{
    let n = x + m - 1;
    vstd::arithmetic::div_mod::lemma_fundamental_div_mod(n, m);
    vstd::arithmetic::div_mod::lemma_mod_pos_bound(n, m);
    vstd::arithmetic::div_mod::lemma_div_pos_is_pos(n, m);
    let q = n / m;
    assert(q * m == m * q) by (nonlinear_arith);
}

/// A reported hit lies on the sphere: the distance of its point from the
/// centre differs from the radius by at most [`hit_tolerance`], and the
/// length of the stored normal from one by at most [`normal_tolerance`],
/// where no step of the intersection, made for the ray of ordinary size, left
/// the range of the numbers. For a hit of ordinary size these are at most
/// 10^-5 and 10^-4. For a hit in proportion to its sphere the point is off by
/// at most 3.5 * 10^-5 and 1.5 * 10^-5 times the parameter of the ray of
/// ordinary size.
pub proof fn lemma_sphere_hit_accuracy(s: SphereModel, r: RayModel, t_min: int, t_max: int)
    requires
        s.radius != 0,
        sphere_hit(s, r, t_min, t_max) is Some,
        in_range(t_min),
        in_range(t_max),
        v3_valid(r.direction),
        hit_unsaturated(s, grown_ray(r), hit_root(s, r, t_min, t_max)),
    ensures
        ({
            let h = sphere_hit(s, r, t_min, t_max).unwrap();
            let g = grown_ray(r);
            let t = hit_root(s, r, t_min, t_max);
            &&& magnitude(distance(h.p, s.center) - magnitude(s.radius)) <= hit_tolerance(s, g, t)
            &&& normal_tolerance(s, g, t) <= scale() ==> magnitude(v3_length(h.normal) - scale())
                <= normal_tolerance(s, g, t)
            &&& hit_of_ordinary_size(s, g, t) ==> magnitude(
                distance(h.p, s.center) - magnitude(s.radius),
            ) <= HIT_TOLERANCE_RAW && magnitude(v3_length(h.normal) - scale())
                <= NORMAL_TOLERANCE_RAW
            &&& hit_in_proportion(s, g, t) ==> magnitude(
                distance(h.p, s.center) - magnitude(s.radius),
            ) * scale() <= 151985 * scale() + 65536 * magnitude(t)
        }),
{
    let k = scale();
    let h = sphere_hit(s, r, t_min, t_max).unwrap();
    let g = grown_ray(r);
    let t = hit_root(s, r, t_min, t_max);
    let m = magnitude(s.radius);
    lemma_hit_of_grown_ray(s, r, t_min, t_max);
    lemma_hit_point_distance(s, g, t);
    let w = v3_sub(h.p, s.center);
    assert(w.x == h.p.x - s.center.x && w.y == h.p.y - s.center.y && w.z == h.p.z - s.center.z);
    let tau = hit_tolerance(s, g, t);
    assert(0 <= tau);
    if normal_tolerance(s, g, t) <= k {
        let x = (tau + 1) * k;
        assert(0 <= x) by (nonlinear_arith)
            requires
                x == (tau + 1) * k,
                0 <= tau,
                0 < k,
        ;
        lemma_rounded_up(x, m);
        let tol = (x + m - 1) / m;
        assert(tol * m == ((x + m - 1) / m) * m);
        lemma_normal_length(w, s.radius, tau, tol);
    }
    if hit_of_ordinary_size(s, g, t) {
        lemma_hit_point_within_tolerance(s, g, t);
        assert(42950 * k <= 343600 * m) by (nonlinear_arith)
            requires
                k <= 8 * m,
        ;
        lemma_normal_length(w, s.radius, HIT_TOLERANCE_RAW as int, 343600);
    }
    if hit_in_proportion(s, g, t) {
        lemma_hit_point_in_proportion(s, g, t);
    }
}

/// Whether a hit at the raw parameter `t` is in proportion to its sphere: the
/// direction of the ray is at most 16 long, the root of the discriminant at
/// most 16 radii, the exact hit point within two radii of the centre along
/// each axis, the parameter at most 65536 radii, and the radius at least
/// 2^-12.
pub open spec fn hit_in_proportion(s: SphereModel, r: RayModel, t: int) -> bool {
    let k = scale();
    let m = magnitude(s.radius);
    &&& quadratic_a(r) <= 256 * k
    &&& fx_sqrt(discriminant(s, r)) <= 16 * m
    &&& magnitude(exact_offset(r.origin.x, s.center.x, r.direction.x, t)) <= 2 * (m * k)
    &&& magnitude(exact_offset(r.origin.y, s.center.y, r.direction.y, t)) <= 2 * (m * k)
    &&& magnitude(exact_offset(r.origin.z, s.center.z, r.direction.z, t)) <= 2 * (m * k)
    &&& magnitude(t) <= 65536 * m
    &&& k <= 4096 * m
}

/// For a hit in proportion the error bound, in units of the weight `a 2^64`
/// times the radius, is at most 151983 units and 65536 times the parameter.
proof fn lemma_proportion_bound(k: int, a: int, sq: int, mt: int, tt: int, offsets: int, m: int)
    requires
        k == 0x1_0000_0000,
        k <= 4 * a,
        a <= 256 * k,
        0 <= sq <= 16 * m,
        0 <= mt <= 65536 * m,
        tt == mt * mt,
        0 <= offsets <= 6 * (m * k),
        k <= 4096 * m,
    ensures
        (k * ((k * k) * (k + 2 * sq) + 2 * k * a * sq + a * a) + a * (k * k * k + 2 * (k * k) * mt
            + k * tt + 2 * k * offsets + 3 * (k * k))) * k <= ((a * (k * k)) * m) * (151983 * k
            + 65536 * mt),
{
    let kk = k * k;
    let w = a * kk;
    let z = m * k;
    let y = m * mt;
    assert(0 < kk) by (nonlinear_arith)
        requires
            kk == k * k,
            0 < k,
    ;
    assert(0 < w) by (nonlinear_arith)
        requires
            w == a * kk,
            0 < kk,
            0 < a,
    ;
    assert(0 < m);
    assert(k <= z && 0 <= y) by (nonlinear_arith)
        requires
            z == m * k,
            y == m * mt,
            1 <= m,
            0 < k,
            0 <= mt,
    ;
    let top = k + 2 * sq;
    // the eight parts, each times k
    let e1 = k * (kk * top);
    assert(e1 <= w * (4 * top)) by (nonlinear_arith)
        requires
            e1 == k * (kk * top),
            w == a * kk,
            k <= 4 * a,
            0 < kk,
            0 <= top,
    ;
    assert((4 * top) * k <= 16512 * z) by (nonlinear_arith)
        requires
            top <= k + 32 * m,
            k <= 4096 * m,
            z == m * k,
            0 < k,
            0 <= top,
    ;
    lemma_weighted(e1, w, 4 * top, k, 16512 * z);
    let e2 = k * (2 * k * a * sq);
    assert(e2 == w * (2 * sq)) by (nonlinear_arith)
        requires
            e2 == k * (2 * k * a * sq),
            w == a * kk,
            kk == k * k,
    ;
    assert((2 * sq) * k <= 32 * z) by (nonlinear_arith)
        requires
            0 <= sq <= 16 * m,
            z == m * k,
            0 < k,
    ;
    lemma_weighted(e2, w, 2 * sq, k, 32 * z);
    let e3 = k * (a * a);
    assert(e3 <= w * 256) by (nonlinear_arith)
        requires
            e3 == k * (a * a),
            w == a * kk,
            kk == k * k,
            a <= 256 * k,
            0 < a,
            0 < k,
    ;
    assert(256 * k <= 256 * z);
    lemma_weighted(e3, w, 256, k, 256 * z);
    let f1 = a * (k * k * k);
    assert(f1 == w * k) by (nonlinear_arith)
        requires
            f1 == a * (k * k * k),
            w == a * kk,
            kk == k * k,
    ;
    assert(k * k <= 4096 * z) by (nonlinear_arith)
        requires
            k <= 4096 * m,
            z == m * k,
            0 < k,
    ;
    lemma_weighted(f1, w, k, k, 4096 * z);
    let f2 = a * (2 * (k * k) * mt);
    assert(f2 == w * (2 * mt)) by (nonlinear_arith)
        requires
            f2 == a * (2 * (k * k) * mt),
            w == a * kk,
            kk == k * k,
    ;
    assert((2 * mt) * k <= 131072 * z) by (nonlinear_arith)
        requires
            0 <= mt <= 65536 * m,
            z == m * k,
            0 < k,
    ;
    lemma_weighted(f2, w, 2 * mt, k, 131072 * z);
    let f3 = a * (k * tt);
    assert(f3 * k == w * tt) by (nonlinear_arith)
        requires
            f3 == a * (k * tt),
            w == a * kk,
            kk == k * k,
    ;
    assert(tt <= 65536 * y) by (nonlinear_arith)
        requires
            tt == mt * mt,
            y == m * mt,
            0 <= mt <= 65536 * m,
    ;
    assert(w * tt <= w * (65536 * y)) by (nonlinear_arith)
        requires
            tt <= 65536 * y,
            0 < w,
    ;
    let f4 = a * (2 * k * offsets);
    assert(f4 * k == w * (2 * offsets)) by (nonlinear_arith)
        requires
            f4 == a * (2 * k * offsets),
            w == a * kk,
            kk == k * k,
    ;
    assert(w * (2 * offsets) <= w * (12 * z)) by (nonlinear_arith)
        requires
            offsets <= 6 * z,
            0 < w,
    ;
    let f5 = a * (3 * (k * k));
    assert(f5 == w * 3) by (nonlinear_arith)
        requires
            f5 == a * (3 * (k * k)),
            w == a * kk,
            kk == k * k,
    ;
    assert(3 * k <= 3 * z);
    lemma_weighted(f5, w, 3, k, 3 * z);
    // the sum
    let b1 = kk * top + 2 * k * a * sq + a * a;
    let b2 = k * k * k + 2 * (k * k) * mt + k * tt + 2 * k * offsets + 3 * (k * k);
    assert(k * b1 == e1 + e2 + e3) by (nonlinear_arith)
        requires
            b1 == kk * top + 2 * k * a * sq + a * a,
            e1 == k * (kk * top),
            e2 == k * (2 * k * a * sq),
            e3 == k * (a * a),
    ;
    assert(a * b2 == f1 + f2 + f3 + f4 + f5) by (nonlinear_arith)
        requires
            b2 == k * k * k + 2 * (k * k) * mt + k * tt + 2 * k * offsets + 3 * (k * k),
            f1 == a * (k * k * k),
            f2 == a * (2 * (k * k) * mt),
            f3 == a * (k * tt),
            f4 == a * (2 * k * offsets),
            f5 == a * (3 * (k * k)),
    ;
    let total = k * b1 + a * b2;
    assert(total * k == e1 * k + e2 * k + e3 * k + f1 * k + f2 * k + f3 * k + f4 * k + f5 * k)
        by (nonlinear_arith)
        requires
            total == e1 + e2 + e3 + f1 + f2 + f3 + f4 + f5,
    ;
    let high = w * (16512 * z) + w * (32 * z) + w * (256 * z) + w * (4096 * z) + w * (131072 * z)
        + w * (65536 * y) + w * (12 * z) + w * (3 * z);
    assert(total * k <= high);
    assert(high == w * (151983 * z + 65536 * y)) by (nonlinear_arith)
        requires
            high == w * (16512 * z) + w * (32 * z) + w * (256 * z) + w * (4096 * z) + w * (131072
                * z) + w * (65536 * y) + w * (12 * z) + w * (3 * z),
    ;
    assert(151983 * z + 65536 * y == m * (151983 * k + 65536 * mt)) by (nonlinear_arith)
        requires
            z == m * k,
            y == m * mt,
    ;
    let inner = 151983 * k + 65536 * mt;
    assert(w * (m * inner) == (w * m) * inner) by (nonlinear_arith);
    assert((k * k) * (k + 2 * sq) == kk * top);
}

/// A part of at most `w c` has, times `k`, at most `w d` where `c k <= d`.
proof fn lemma_weighted(e: int, w: int, c: int, k: int, d: int)
    requires
        e <= w * c,
        c * k <= d,
        0 < w,
        0 < k,
    ensures
        e * k <= w * d,
{
    assert(e * k <= (w * c) * k) by (nonlinear_arith)
        requires
            e <= w * c,
            0 < k,
    ;
    assert((w * c) * k == w * (c * k)) by (nonlinear_arith);
    assert(w * (c * k) <= w * d) by (nonlinear_arith)
        requires
            c * k <= d,
            0 < w,
    ;
}

/// For a hit in proportion to its sphere the point of the hit lies on the
/// sphere within a tolerance that grows with the parameter alone: the
/// distance from the centre differs from the radius by at most 151985 units,
/// about 3.5 * 10^-5, and 65536 * 2^-32, about 1.5 * 10^-5, times the
/// parameter, where no step of the intersection left the range of the
/// numbers.
pub proof fn lemma_hit_point_in_proportion(s: SphereModel, r: RayModel, t: int)
    requires
        s.radius != 0,
        is_root(s, r, t),
        hit_unsaturated(s, r, t),
        hit_in_proportion(s, r, t),
        scale() <= 4 * quadratic_a(r),
    ensures
        magnitude(distance(ray_at(r, t), s.center) - magnitude(s.radius)) * scale() <= 151985
            * scale() + 65536 * magnitude(t),
{
    let k = scale();
    let a = quadratic_a(r);
    let m = magnitude(s.radius);
    let sq = fx_sqrt(discriminant(s, r));
    let mt = magnitude(t);
    let ox = magnitude(exact_offset(r.origin.x, s.center.x, r.direction.x, t));
    let oy = magnitude(exact_offset(r.origin.y, s.center.y, r.direction.y, t));
    let oz = magnitude(exact_offset(r.origin.z, s.center.z, r.direction.z, t));
    let offsets = ox + oy + oz;
    lemma_hit_point_distance(s, r, t);
    assert(0 <= discriminant(s, r) * k) by (nonlinear_arith)
        requires
            0 <= discriminant(s, r),
            k == 0x1_0000_0000,
    ;
    lemma_isqrt_exists(discriminant(s, r) * k);
    assert(mt * mt == t * t) by (nonlinear_arith)
        requires
            mt == magnitude(t),
    ;
    lemma_proportion_bound(k, a, sq, mt, t * t, offsets, m);
    let bound = hit_error_bound(s, r, t);
    let unit = a * (k * k);
    let weight = unit * m;
    let inner = 151983 * k + 65536 * mt;
    assert(bound * k <= weight * inner);
    assert(0 < weight) by (nonlinear_arith)
        requires
            weight == unit * m,
            unit == a * (k * k),
            0 < a,
            0 < k,
            0 < m,
    ;
    let x = magnitude(distance(ray_at(r, t), s.center) - m);
    let y = x - 2;
    assert(y <= bound / weight);
    if y > 0 {
        vstd::arithmetic::div_mod::lemma_fundamental_div_mod(bound, weight);
        vstd::arithmetic::div_mod::lemma_mod_pos_bound(bound, weight);
        let q = bound / weight;
        assert(y * weight <= bound) by (nonlinear_arith)
            requires
                y <= q,
                bound == weight * q + bound % weight,
                0 <= bound % weight,
                0 < weight,
        ;
        assert((y * k) * weight <= inner * weight) by (nonlinear_arith)
            requires
                y * weight <= bound,
                bound * k <= weight * inner,
                0 < k,
        ;
        if y * k > inner {
            assert((y * k) * weight > inner * weight) by (nonlinear_arith)
                requires
                    y * k >= inner + 1,
                    0 < weight,
            ;
        }
    } else {
        assert(y * k <= 0) by (nonlinear_arith)
            requires
                y <= 0,
                0 < k,
        ;
    }
    assert(x * k == y * k + 2 * k) by (nonlinear_arith)
        requires
            y == x - 2,
    ;
}

} // verus!
