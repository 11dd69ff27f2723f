//! How close to a right angle a cross product stands to its factors, and a
//! normalized cross product with them.

use crate::fixed::{
    growth, in_range, isqrt, lemma_growth, lemma_isqrt_exists, limit, magnitude, scale, tdiv,
};
use crate::hit_accuracy::lemma_tdiv_remainder;
use crate::unit_length::{
    lemma_component_bound, lemma_grown, lemma_isqrt_between, lemma_product_size_of,
    lemma_quotient_bracket, lemma_quotients_above, lemma_quotients_below, lemma_square_ordered,
};
use crate::vec3::{
    v3_cross, v3_dot, v3_grown, v3_length, v3_over_length, v3_reach, v3_unit, v3_valid, V3,
};
use vstd::prelude::*;

verus! {

/// The exact sum of products behind a dot product, in squares of units.
pub open spec fn exact_dot(a: V3, b: V3) -> int {
    a.x * b.x + a.y * b.y + a.z * b.z
}

/// The exact cross product of two vectors vanishes against either of them.
proof fn lemma_triple_product(x: V3, y: V3)
    ensures
        (x.y * y.z - x.z * y.y) * x.x + (x.z * y.x - x.x * y.z) * x.y + (x.x * y.y - x.y * y.x)
            * x.z == 0,
        (x.y * y.z - x.z * y.y) * y.x + (x.z * y.x - x.x * y.z) * y.y + (x.x * y.y - x.y * y.x)
            * y.z == 0,
{
    let a = x.x;
    let b = x.y;
    let c = x.z;
    let d = y.x;
    let e = y.y;
    let f = y.z;
    assert((b * f - c * e) * a == b * f * a - c * e * a) by (nonlinear_arith);
    assert((c * d - a * f) * b == c * d * b - a * f * b) by (nonlinear_arith);
    assert((a * e - b * d) * c == a * e * c - b * d * c) by (nonlinear_arith);
    assert(b * f * a == a * f * b) by (nonlinear_arith);
    assert(c * e * a == a * e * c) by (nonlinear_arith);
    assert(c * d * b == b * d * c) by (nonlinear_arith);
    assert((b * f - c * e) * d == b * f * d - c * e * d) by (nonlinear_arith);
    assert((c * d - a * f) * e == c * d * e - a * f * e) by (nonlinear_arith);
    assert((a * e - b * d) * f == a * e * f - b * d * f) by (nonlinear_arith);
    assert(b * f * d == b * d * f) by (nonlinear_arith);
    assert(c * e * d == c * d * e) by (nonlinear_arith);
    assert(a * f * e == a * e * f) by (nonlinear_arith);
}

/// The sum of products of a rounded cross product with a vector that its
/// exact counterpart vanishes against is smaller than three times the bound
/// on the components of that vector.
proof fn lemma_rounded_against(ex: int, ey: int, ez: int, cx: int, cy: int, cz: int, w: V3, b: int)
    requires
        ex * w.x + ey * w.y + ez * w.z == 0,
        cx == tdiv(ex, scale()),
        cy == tdiv(ey, scale()),
        cz == tdiv(ez, scale()),
        magnitude(w.x) <= b,
        magnitude(w.y) <= b,
        magnitude(w.z) <= b,
    ensures
        magnitude(cx * w.x + cy * w.y + cz * w.z) <= 3 * b,
{
    let k = scale();
    lemma_tdiv_remainder(ex, k);
    lemma_tdiv_remainder(ey, k);
    lemma_tdiv_remainder(ez, k);
    let rx = ex - cx * k;
    let ry = ey - cy * k;
    let rz = ez - cz * k;
    let sum = cx * w.x + cy * w.y + cz * w.z;
    assert(ex * w.x == (cx * w.x) * k + rx * w.x) by (nonlinear_arith)
        requires
            ex == cx * k + rx,
    ;
    assert(ey * w.y == (cy * w.y) * k + ry * w.y) by (nonlinear_arith)
        requires
            ey == cy * k + ry,
    ;
    assert(ez * w.z == (cz * w.z) * k + rz * w.z) by (nonlinear_arith)
        requires
            ez == cz * k + rz,
    ;
    assert(sum * k == (cx * w.x) * k + (cy * w.y) * k + (cz * w.z) * k) by (nonlinear_arith)
        requires
            sum == cx * w.x + cy * w.y + cz * w.z,
    ;
    lemma_product_size_of(rx, w.x, k, b);
    lemma_product_size_of(ry, w.y, k, b);
    lemma_product_size_of(rz, w.z, k, b);
    assert(sum * k == -(rx * w.x + ry * w.y + rz * w.z));
    assert(magnitude(sum * k) <= 3 * (k * b));
    if magnitude(sum) > 3 * b {
        assert(magnitude(sum * k) > 3 * (k * b)) by (nonlinear_arith)
            requires
                magnitude(sum) >= 3 * b + 1,
                k == 0x1_0000_0000,
                0 <= b,
        ;
    }
}

/// The cross product of two vectors whose components are at most `b` in
/// magnitude, for a `b` of at most 2^40 units, has components below the
/// largest number.
pub proof fn lemma_cross_size(x: V3, y: V3, b: int)
    requires
        0 <= b <= 0x100_0000_0000,
        v3_reach(x) <= b,
        v3_reach(y) <= b,
    ensures
        magnitude(v3_cross(x, y).x) < limit(),
        magnitude(v3_cross(x, y).y) < limit(),
        magnitude(v3_cross(x, y).z) < limit(),
{
    lemma_product_size_of(x.y, y.z, b, b);
    lemma_product_size_of(x.z, y.y, b, b);
    lemma_product_size_of(x.z, y.x, b, b);
    lemma_product_size_of(x.x, y.z, b, b);
    lemma_product_size_of(x.x, y.y, b, b);
    lemma_product_size_of(x.y, y.x, b, b);
    let top = 2 * (b * b);
    assert(0 <= b * b <= 0x100_0000_0000 * 0x100_0000_0000) by (nonlinear_arith)
        requires
            0 <= b <= 0x100_0000_0000,
    ;
    lemma_quotient_small(x.y * y.z - x.z * y.y, top);
    lemma_quotient_small(x.z * y.x - x.x * y.z, top);
    lemma_quotient_small(x.x * y.y - x.y * y.x, top);
}

/// A sum of products of at most 2^81 in magnitude gives a raw value below
/// the largest number.
proof fn lemma_quotient_small(n: int, top: int)
    requires
        magnitude(n) <= top,
        top <= 0x2_0000_0000_0000_0000_0000,
    ensures
        magnitude(tdiv(n, scale())) < limit(),
{
    let m = magnitude(n);
    vstd::arithmetic::div_mod::lemma_div_is_ordered(m, 0x2_0000_0000_0000_0000_0000, scale());
    assert(0x2_0000_0000_0000_0000_0000int / 0x1_0000_0000 == 0x2_0000_0000_0000);
    vstd::arithmetic::div_mod::lemma_div_pos_is_pos(m, scale());
}

/// A cross product stands at a right angle to both of its factors, up to
/// rounding: the exact sum of products with either factor is smaller than
/// three times the largest component of that factor, where no component of
/// the cross product left the range of the numbers.
pub proof fn lemma_cross_orthogonal(x: V3, y: V3)
    requires
        magnitude(v3_cross(x, y).x) < limit(),
        magnitude(v3_cross(x, y).y) < limit(),
        magnitude(v3_cross(x, y).z) < limit(),
    ensures
        magnitude(exact_dot(v3_cross(x, y), x)) <= 3 * v3_reach(x),
        magnitude(exact_dot(v3_cross(x, y), y)) <= 3 * v3_reach(y),
{
    let c = v3_cross(x, y);
    lemma_triple_product(x, y);
    let ex = x.y * y.z - x.z * y.y;
    let ey = x.z * y.x - x.x * y.z;
    let ez = x.x * y.y - x.y * y.x;
    lemma_rounded_against(ex, ey, ez, c.x, c.y, c.z, x, v3_reach(x));
    lemma_rounded_against(ex, ey, ez, c.x, c.y, c.z, y, v3_reach(y));
}

/// The vector of length one along a vector `c` stands to `w` as `c` does: the
/// exact sum of products of the unit vector with `w` is bounded by that of
/// `c`, scaled by twice the growth of `c`, plus three times the largest
/// component of `w`.
pub proof fn lemma_unit_against(c: V3, w: V3, bound: int)
    requires
        v3_valid(c),
        c.x != 0 || c.y != 0 || c.z != 0,
        v3_length(c) < limit(),
        magnitude(exact_dot(c, w)) <= bound,
    ensures
        magnitude(exact_dot(v3_unit(c), w)) <= 2 * growth(v3_reach(c)) * bound + 3 * v3_reach(w),
{
    let k = scale();
    let f = growth(v3_reach(c));
    let g = v3_grown(c);
    lemma_growth(v3_reach(c));
    lemma_grown(c);
    let u = v3_unit(c);
    assert(0 <= g.x * g.x && 0 <= g.y * g.y && 0 <= g.z * g.z) by (nonlinear_arith);
    lemma_isqrt_exists(g.x * g.x + g.y * g.y + g.z * g.z);
    let l = v3_length(g);
    assert(l == isqrt(g.x * g.x + g.y * g.y + g.z * g.z));
    assert(u == v3_over_length(g));
    lemma_tdiv_remainder(g.x * k, l);
    lemma_tdiv_remainder(g.y * k, l);
    lemma_tdiv_remainder(g.z * k, l);
    lemma_component_bound(g.x, g.y * g.y + g.z * g.z, l);
    lemma_component_bound(g.y, g.x * g.x + g.z * g.z, l);
    lemma_component_bound(g.z, g.x * g.x + g.y * g.y, l);
    lemma_quotient_in_range(g.x, l);
    lemma_quotient_in_range(g.y, l);
    lemma_quotient_in_range(g.z, l);
    let sx = g.x * k - u.x * l;
    let sy = g.y * k - u.y * l;
    let sz = g.z * k - u.z * l;
    let b = v3_reach(w);
    let du = exact_dot(u, w);
    let dc = exact_dot(c, w);
    let dg = g.x * w.x + g.y * w.y + g.z * w.z;
    let px = c.x * w.x;
    let py = c.y * w.y;
    let pz = c.z * w.z;
    assert((c.x * f) * w.x == f * px) by (nonlinear_arith)
        requires
            px == c.x * w.x,
    ;
    assert((c.y * f) * w.y == f * py) by (nonlinear_arith)
        requires
            py == c.y * w.y,
    ;
    assert((c.z * f) * w.z == f * pz) by (nonlinear_arith)
        requires
            pz == c.z * w.z,
    ;
    assert(f * (px + py + pz) == f * px + f * py + f * pz) by (nonlinear_arith);
    assert(dg == f * dc);
    assert((g.x * k) * w.x == (u.x * w.x) * l + sx * w.x) by (nonlinear_arith)
        requires
            g.x * k == u.x * l + sx,
    ;
    assert((g.y * k) * w.y == (u.y * w.y) * l + sy * w.y) by (nonlinear_arith)
        requires
            g.y * k == u.y * l + sy,
    ;
    assert((g.z * k) * w.z == (u.z * w.z) * l + sz * w.z) by (nonlinear_arith)
        requires
            g.z * k == u.z * l + sz,
    ;
    let qx = g.x * w.x;
    let qy = g.y * w.y;
    let qz = g.z * w.z;
    assert((g.x * k) * w.x == k * qx) by (nonlinear_arith)
        requires
            qx == g.x * w.x,
    ;
    assert((g.y * k) * w.y == k * qy) by (nonlinear_arith)
        requires
            qy == g.y * w.y,
    ;
    assert((g.z * k) * w.z == k * qz) by (nonlinear_arith)
        requires
            qz == g.z * w.z,
    ;
    assert(k * (qx + qy + qz) == k * qx + k * qy + k * qz) by (nonlinear_arith);
    assert((g.x * k) * w.x + (g.y * k) * w.y + (g.z * k) * w.z == k * dg);
    assert(du * l == (u.x * w.x) * l + (u.y * w.y) * l + (u.z * w.z) * l) by (nonlinear_arith)
        requires
            du == u.x * w.x + u.y * w.y + u.z * w.z,
    ;
    lemma_product_size_of(sx, w.x, l, b);
    lemma_product_size_of(sy, w.y, l, b);
    lemma_product_size_of(sz, w.z, l, b);
    assert(du * l == k * dg - (sx * w.x + sy * w.y + sz * w.z));
    lemma_product_size_of(f, dc, f, bound);
    lemma_product_size_of(k, dg, k, f * bound);
    assert(magnitude(du * l) <= k * (f * bound) + 3 * (l * b));
    let high = 2 * f * bound + 3 * b;
    assert(k * (f * bound) <= l * (2 * f * bound)) by (nonlinear_arith)
        requires
            k <= 2 * l,
            0 <= f * bound,
            0 <= bound,
            1 <= f,
    ;
    assert(0 <= f * bound) by (nonlinear_arith)
        requires
            0 <= bound,
            1 <= f,
    ;
    assert(l * (2 * f * bound) + 3 * (l * b) == l * high) by (nonlinear_arith)
        requires
            high == 2 * f * bound + 3 * b,
    ;
    if magnitude(du) > high {
        assert(magnitude(du * l) > l * high) by (nonlinear_arith)
            requires
                magnitude(du) >= high + 1,
                0 < l,
                0 <= high,
        ;
    }
}

/// From the exact sum of products to the dot product: a sum of products of
/// at most `m` whole numbers in magnitude gives a dot product of at most `m`
/// units.
pub proof fn lemma_dot_size(a: V3, b: V3, m: int)
    requires
        magnitude(exact_dot(a, b)) <= m * scale(),
    ensures
        magnitude(v3_dot(a, b)) <= m,
{
    let n = magnitude(exact_dot(a, b));
    vstd::arithmetic::div_mod::lemma_div_is_ordered(n, m * scale(), scale());
    vstd::arithmetic::div_mod::lemma_div_by_multiple(m, scale());
    vstd::arithmetic::div_mod::lemma_div_pos_is_pos(n, scale());
}

/// A component of a vector divided by the length of the vector is a raw
/// value: the division does not saturate.
proof fn lemma_quotient_in_range(x: int, l: int)
    requires
        0 < l,
        magnitude(x) <= 2 * l,
    ensures
        in_range(tdiv(x * scale(), l)),
{
    let k = scale();
    let m = magnitude(x);
    assert(magnitude(x * k) == m * k && 0 <= m * k <= (2 * k) * l) by (nonlinear_arith)
        requires
            m == magnitude(x),
            m <= 2 * l,
            k == 0x1_0000_0000,
            0 < l,
    ;
    vstd::arithmetic::div_mod::lemma_div_is_ordered(m * k, (2 * k) * l, l);
    vstd::arithmetic::div_mod::lemma_div_by_multiple(2 * k, l);
    vstd::arithmetic::div_mod::lemma_div_pos_is_pos(m * k, l);
}

/// The square of a difference of two products.
proof fn lemma_difference_squared(a: int, b: int, c: int, d: int)
    ensures
        (a * b - c * d) * (a * b - c * d) == (a * a) * (b * b) - 2 * ((a * b) * (c * d)) + (c * c)
            * (d * d),
{
    let x = a * b;
    let y = c * d;
    assert((x - y) * (x - y) == x * x - 2 * (x * y) + y * y) by (nonlinear_arith);
    assert(x * x == (a * a) * (b * b)) by (nonlinear_arith)
        requires
            x == a * b,
    ;
    assert(y * y == (c * c) * (d * d)) by (nonlinear_arith)
        requires
            y == c * d,
    ;
}

/// Two products of the same four factors are equal.
proof fn lemma_four_factors(a: int, b: int, c: int, d: int)
    ensures
        (a * b) * (c * d) == (a * c) * (b * d),
        (a * b) * (c * d) == (a * d) * (b * c),
{
    assert((a * b) * (c * d) == (a * c) * (b * d)) by (nonlinear_arith);
    assert((a * b) * (c * d) == (a * d) * (b * c)) by (nonlinear_arith);
}

/// Lagrange's identity: the squared length of an exact cross product is the
/// product of the squared lengths less the square of the dot product.
proof fn lemma_lagrange(x: V3, y: V3)
    ensures
        (x.y * y.z - x.z * y.y) * (x.y * y.z - x.z * y.y) + (x.z * y.x - x.x * y.z) * (x.z * y.x
            - x.x * y.z) + (x.x * y.y - x.y * y.x) * (x.x * y.y - x.y * y.x) == exact_dot(x, x)
            * exact_dot(y, y) - exact_dot(x, y) * exact_dot(x, y),
{
    let a = x.x;
    let b = x.y;
    let c = x.z;
    let d = y.x;
    let e = y.y;
    let f = y.z;
    lemma_difference_squared(b, f, c, e);
    lemma_difference_squared(c, d, a, f);
    lemma_difference_squared(a, e, b, d);
    lemma_four_factors(b, f, c, e);
    lemma_four_factors(c, d, a, f);
    lemma_four_factors(a, e, b, d);
    let aa = a * a;
    let bb = b * b;
    let cc = c * c;
    let dd = d * d;
    let ee = e * e;
    let ff = f * f;
    let p = aa + bb + cc;
    let q = dd + ee + ff;
    assert(p * q == aa * dd + aa * ee + aa * ff + bb * dd + bb * ee + bb * ff + cc * dd + cc * ee
        + cc * ff) by (nonlinear_arith)
        requires
            p == aa + bb + cc,
            q == dd + ee + ff,
    ;
    let ad = a * d;
    let be = b * e;
    let cf = c * f;
    let t = ad + be + cf;
    assert(t * t == ad * ad + be * be + cf * cf + 2 * (ad * be) + 2 * (ad * cf) + 2 * (be * cf))
        by (nonlinear_arith)
        requires
            t == ad + be + cf,
    ;
    assert(ad * ad == aa * dd) by (nonlinear_arith)
        requires
            ad == a * d,
            aa == a * a,
            dd == d * d,
    ;
    assert(be * be == bb * ee) by (nonlinear_arith)
        requires
            be == b * e,
            bb == b * b,
            ee == e * e,
    ;
    assert(cf * cf == cc * ff) by (nonlinear_arith)
        requires
            cf == c * f,
            cc == c * c,
            ff == f * f,
    ;
    assert((b * f) * (c * e) == be * cf) by (nonlinear_arith)
        requires
            be == b * e,
            cf == c * f,
    ;
    assert((c * d) * (a * f) == ad * cf) by (nonlinear_arith)
        requires
            ad == a * d,
            cf == c * f,
    ;
    assert((a * e) * (b * d) == ad * be) by (nonlinear_arith)
        requires
            ad == a * d,
            be == b * e,
    ;
    assert(ff * bb == bb * ff && dd * cc == cc * dd && ee * aa == aa * ee && ee * cc == cc * ee
        && ff * aa == aa * ff && dd * bb == bb * dd) by (nonlinear_arith);
}

/// The cross product of two vectors of length one within 10^-5 that stand at
/// a right angle within 24600 whole units of exact sum has the length one
/// within 2 * 10^-5.
pub proof fn lemma_cross_length(w: V3, u: V3)
    requires
        scale() - 2 <= isqrt(exact_dot(w, w)) <= scale() + 42949,
        scale() - 2 <= isqrt(exact_dot(u, u)) <= scale() + 42949,
        magnitude(exact_dot(w, u)) <= 24600 * scale(),
    ensures
        scale() - 7 <= v3_length(v3_cross(w, u)) <= scale() + 85902,
{
    let k = scale();
    let p = exact_dot(w, w);
    let q = exact_dot(u, u);
    let t = exact_dot(w, u);
    assert(0 <= w.x * w.x && 0 <= w.y * w.y && 0 <= w.z * w.z) by (nonlinear_arith);
    assert(0 <= u.x * u.x && 0 <= u.y * u.y && 0 <= u.z * u.z) by (nonlinear_arith);
    lemma_isqrt_exists(p);
    lemma_isqrt_exists(q);
    let lw = isqrt(p);
    let lu = isqrt(q);
    let ex = w.y * u.z - w.z * u.y;
    let ey = w.z * u.x - w.x * u.z;
    let ez = w.x * u.y - w.y * u.x;
    let m = ex * ex + ey * ey + ez * ez;
    lemma_lagrange(w, u);
    assert(m == p * q - t * t);
    // the squared lengths
    let h: int = 18447113013244980516;
    let low: int = 18446744056529682436;
    lemma_square_ordered(lw + 1, k + 42950);
    lemma_square_ordered(lu + 1, k + 42950);
    lemma_square_ordered(k - 2, lw);
    lemma_square_ordered(k - 2, lu);
    assert((k + 42950) * (k + 42950) == h) by (nonlinear_arith)
        requires
            k == 0x1_0000_0000,
            h == 18447113013244980516,
    ;
    assert((k - 2) * (k - 2) == low) by (nonlinear_arith)
        requires
            k == 0x1_0000_0000,
            low == 18446744056529682436,
    ;
    assert(low * low <= p * q < h * h) by (nonlinear_arith)
        requires
            0 <= low <= p < h,
            0 <= low <= q < h,
    ;
    let mt = magnitude(t);
    lemma_square_ordered(mt, 24600 * k);
    assert(mt * mt == t * t) by (nonlinear_arith)
        requires
            mt == magnitude(t),
    ;
    assert(0 <= t * t);
    let l = k * k;
    let e: int = 368939535428900;
    let lo: int = 18446744052234715136;
    assert(l == 18446744073709551616) by (nonlinear_arith)
        requires
            l == k * k,
            k == 0x1_0000_0000,
    ;
    assert(h == l + e);
    assert((24600 * k) * (24600 * k) == 105656195481600int * 105656195481600)
        by (nonlinear_arith)
        requires
            k == 0x1_0000_0000,
    ;
    assert(low * low - 105656195481600int * 105656195481600 >= lo * lo) by (nonlinear_arith)
        requires
            low == 18446744056529682436,
            lo == 18446744052234715136,
    ;
    assert(lo * lo <= m < (l + e) * (l + e));
    // the components
    let mx = magnitude(ex);
    let my = magnitude(ey);
    let mz = magnitude(ez);
    assert(mx * mx == ex * ex && my * my == ey * ey && mz * mz == ez * ez) by (nonlinear_arith)
        requires
            mx == magnitude(ex),
            my == magnitude(ey),
            mz == magnitude(ez),
    ;
    let a = lemma_quotient_bracket(mx, 1, k);
    let b = lemma_quotient_bracket(my, 1, k);
    let c = lemma_quotient_bracket(mz, 1, k);
    lemma_scaled_bracket(a, mx, k);
    lemma_scaled_bracket(b, my, k);
    lemma_scaled_bracket(c, mz, k);
    assert(e * k <= 85902 * l) by (nonlinear_arith)
        requires
            e == 368939535428900,
            k == 0x1_0000_0000,
            l == 18446744073709551616,
    ;
    lemma_quotients_above(a, b, c, mx, my, mz, k, l, e, 85902);
    assert((k - 5) * l == k * lo) by (nonlinear_arith)
        requires
            k == 0x1_0000_0000,
            l == 18446744073709551616,
            lo == 18446744052234715136,
    ;
    lemma_quotients_below(a, b, c, mx, my, mz, k, l, k - 5, lo);
    let v = v3_cross(w, u);
    lemma_isqrt_between(a * a + b * b + c * c, k - 7, k + 85902);
    assert(0 <= a * a && 0 <= b * b && 0 <= c * c) by (nonlinear_arith);
    if a > k + 85902 {
        lemma_square_ordered(k + 85902, a);
    }
    if b > k + 85902 {
        lemma_square_ordered(k + 85902, b);
    }
    if c > k + 85902 {
        lemma_square_ordered(k + 85902, c);
    }
    assert(a <= k + 85902 && b <= k + 85902 && c <= k + 85902);
    assert(mx * 1 == mx && my * 1 == my && mz * 1 == mz);
    assert(magnitude(v.x) == a && magnitude(v.y) == b && magnitude(v.z) == c);
    assert(v.x * v.x == a * a && v.y * v.y == b * b && v.z * v.z == c * c) by (nonlinear_arith)
        requires
            magnitude(v.x) == a,
            magnitude(v.y) == b,
            magnitude(v.z) == c,
    ;
}

/// A bracket of a quotient by the scale, brought to the scale squared.
proof fn lemma_scaled_bracket(a: int, m: int, k: int)
    requires
        0 < k,
        0 <= a,
        a * k <= m * 1 < (a + 1) * k,
    ensures
        a * (k * k) <= m * k,
        m * k < (a + 1) * (k * k),
{
    assert(a * (k * k) <= m * k && m * k < (a + 1) * (k * k)) by (nonlinear_arith)
        requires
            0 < k,
            a * k <= m,
            m < (a + 1) * k,
    ;
}

} // verus!
