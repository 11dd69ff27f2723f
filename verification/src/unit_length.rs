//! How close to one the length of a normalized vector is.

use crate::fixed::{
    fx_div, growth, isqrt, lemma_growth, lemma_isqrt_exists, lemma_isqrt_is, is_isqrt, limit,
    magnitude, scale, tdiv, ORDINARY_RAW,
};
use crate::vec3::{
    in_unit_sphere, v3_grown, v3_length, v3_over_length, v3_reach, v3_unit, v3_valid, v3_zero,
    V3,
};
use vstd::prelude::*;

verus! {

/// Largest raw distance from one that the length of a normalized vector can
/// have above one: 42949 units, the largest count of units that is not above
/// 10^-5.
pub const UNIT_TOLERANCE_RAW: i64 = 42949;

/// Smallest raw length for which dividing a vector by its length as it
/// stands gives a length of one within the tolerance: 100000 units, a length
/// of about 0.000023. Below it the length itself is known too coarsely, which
/// is why a vector is brought to ordinary size before it is divided.
pub const UNIT_MIN_LENGTH_RAW: i64 = 100000;

/// Squares keep the order of numbers that are not negative.
pub proof fn lemma_square_ordered(p: int, q: int)
    requires
        0 <= p <= q,
    ensures
        p * p <= q * q,
        p < q ==> p * p < q * q,
{
    assert(p * p <= q * q) by (nonlinear_arith)
        requires
            0 <= p <= q,
    ;
    if p < q {
        assert(p * p < q * q) by (nonlinear_arith)
            requires
                0 <= p < q,
        ;
    }
}

/// A number between two squares has its integer square root between their
/// roots.
pub proof fn lemma_isqrt_between(n: int, lo: int, hi: int)
    requires
        0 <= lo,
        0 <= hi,
        lo * lo <= n < hi * hi,
    ensures
        lo <= isqrt(n) < hi,
{
    assert(0 <= lo * lo) by (nonlinear_arith);
    lemma_isqrt_exists(n);
    let r = isqrt(n);
    if r < lo {
        lemma_square_ordered(r + 1, lo);
    }
    if r >= hi {
        lemma_square_ordered(hi, r);
    }
}

/// The quotient `a = (m k) / l` brackets the exact quotient:
/// `a l <= m k < (a + 1) l`.
pub proof fn lemma_quotient_bracket(m: int, k: int, l: int) -> (a: int)
    requires
        0 <= m,
        0 < k,
        0 < l,
    ensures
        a == (m * k) / l,
        0 <= a,
        a * l <= m * k < (a + 1) * l,
{
    let n = m * k;
    assert(0 <= n) by (nonlinear_arith)
        requires
            n == m * k,
            0 <= m,
            0 < k,
    ;
    let a = n / l;
    vstd::arithmetic::div_mod::lemma_fundamental_div_mod(n, l);
    vstd::arithmetic::div_mod::lemma_mod_pos_bound(n, l);
    vstd::arithmetic::div_mod::lemma_div_pos_is_pos(n, l);
    assert(a * l == l * a && (a + 1) * l == l * a + l) by (nonlinear_arith);
    a
}

/// A component of a vector is at most as long as the vector.
pub proof fn lemma_component_bound(x: int, rest: int, l: int)
    requires
        0 <= rest,
        0 <= l,
        x * x + rest < (l + 1) * (l + 1),
    ensures
        magnitude(x) <= l,
{
    let m = magnitude(x);
    assert(m * m == x * x) by (nonlinear_arith)
        requires
            m == magnitude(x),
    ;
    if m > l {
        lemma_square_ordered(l + 1, m);
    }
}

/// Upper bound on the squared length of the quotients.
pub proof fn lemma_quotients_above(
    a: int,
    b: int,
    c: int,
    mx: int,
    my: int,
    mz: int,
    k: int,
    l: int,
    e: int,
    tol: int,
)
    requires
        0 <= a,
        0 <= b,
        0 <= c,
        0 <= mx,
        0 <= my,
        0 <= mz,
        0 < k,
        0 < l,
        0 < e,
        0 < tol,
        a * l <= mx * k,
        b * l <= my * k,
        c * l <= mz * k,
        mx * mx + my * my + mz * mz < (l + e) * (l + e),
        e * k <= tol * l,
    ensures
        a * a + b * b + c * c < (k + tol) * (k + tol),
{
    let q = a * a + b * b + c * c;
    let m = mx * mx + my * my + mz * mz;
    assert(0 <= a * l && 0 <= b * l && 0 <= c * l) by (nonlinear_arith)
        requires
            0 <= a,
            0 <= b,
            0 <= c,
            0 < l,
    ;
    lemma_square_ordered(a * l, mx * k);
    lemma_square_ordered(b * l, my * k);
    lemma_square_ordered(c * l, mz * k);
    assert((a * l) * (a * l) == (a * a) * (l * l)) by (nonlinear_arith);
    assert((b * l) * (b * l) == (b * b) * (l * l)) by (nonlinear_arith);
    assert((c * l) * (c * l) == (c * c) * (l * l)) by (nonlinear_arith);
    assert((mx * k) * (mx * k) == (mx * mx) * (k * k)) by (nonlinear_arith);
    assert((my * k) * (my * k) == (my * my) * (k * k)) by (nonlinear_arith);
    assert((mz * k) * (mz * k) == (mz * mz) * (k * k)) by (nonlinear_arith);
    let ll = l * l;
    let kk = k * k;
    assert(q * ll == (a * a) * ll + (b * b) * ll + (c * c) * ll) by (nonlinear_arith)
        requires
            q == a * a + b * b + c * c,
    ;
    assert(m * kk == (mx * mx) * kk + (my * my) * kk + (mz * mz) * kk) by (nonlinear_arith)
        requires
            m == mx * mx + my * my + mz * mz,
    ;
    assert(q * ll <= m * kk);
    let top = (l + e) * k;
    let wide = (k + tol) * l;
    assert(0 <= top <= wide) by (nonlinear_arith)
        requires
            top == (l + e) * k,
            wide == (k + tol) * l,
            0 < k,
            0 < l,
            0 < e,
            e * k <= tol * l,
    ;
    lemma_square_ordered(top, wide);
    assert(top * top == ((l + e) * (l + e)) * kk) by (nonlinear_arith)
        requires
            top == (l + e) * k,
            kk == k * k,
    ;
    assert(wide * wide == ((k + tol) * (k + tol)) * ll) by (nonlinear_arith)
        requires
            wide == (k + tol) * l,
            ll == l * l,
    ;
    assert(m * kk < ((l + e) * (l + e)) * kk) by (nonlinear_arith)
        requires
            m < (l + e) * (l + e),
            kk == k * k,
            0 < k,
    ;
    let bound = (k + tol) * (k + tol);
    assert(q * ll < bound * ll);
    assert(q < bound) by (nonlinear_arith)
        requires
            q * ll < bound * ll,
            ll == l * l,
            0 < l,
    ;
}

/// Lower bound on the squared length of the quotients.
pub proof fn lemma_quotients_below(
    a: int,
    b: int,
    c: int,
    mx: int,
    my: int,
    mz: int,
    k: int,
    l: int,
    kq: int,
    lo: int,
)
    requires
        0 <= a,
        0 <= b,
        0 <= c,
        0 <= mx,
        0 <= my,
        0 <= mz,
        0 < k,
        2 <= kq,
        0 < l,
        0 <= lo,
        kq * l <= k * lo,
        mx * k < (a + 1) * l,
        my * k < (b + 1) * l,
        mz * k < (c + 1) * l,
        lo * lo <= mx * mx + my * my + mz * mz,
    ensures
        (kq - 2) * (kq - 2) <= a * a + b * b + c * c,
{
    let q = a * a + b * b + c * c;
    let m = mx * mx + my * my + mz * mz;
    let p = (a + 1) * (a + 1) + (b + 1) * (b + 1) + (c + 1) * (c + 1);
    let ll = l * l;
    let kk = k * k;
    assert(0 <= mx * k && 0 <= my * k && 0 <= mz * k) by (nonlinear_arith)
        requires
            0 <= mx,
            0 <= my,
            0 <= mz,
            0 < k,
    ;
    lemma_square_ordered(mx * k, (a + 1) * l);
    lemma_square_ordered(my * k, (b + 1) * l);
    lemma_square_ordered(mz * k, (c + 1) * l);
    assert(((a + 1) * l) * ((a + 1) * l) == ((a + 1) * (a + 1)) * ll) by (nonlinear_arith)
        requires
            ll == l * l,
    ;
    assert(((b + 1) * l) * ((b + 1) * l) == ((b + 1) * (b + 1)) * ll) by (nonlinear_arith)
        requires
            ll == l * l,
    ;
    assert(((c + 1) * l) * ((c + 1) * l) == ((c + 1) * (c + 1)) * ll) by (nonlinear_arith)
        requires
            ll == l * l,
    ;
    assert((mx * k) * (mx * k) == (mx * mx) * kk) by (nonlinear_arith)
        requires
            kk == k * k,
    ;
    assert((my * k) * (my * k) == (my * my) * kk) by (nonlinear_arith)
        requires
            kk == k * k,
    ;
    assert((mz * k) * (mz * k) == (mz * mz) * kk) by (nonlinear_arith)
        requires
            kk == k * k,
    ;
    assert(p * ll == ((a + 1) * (a + 1)) * ll + ((b + 1) * (b + 1)) * ll + ((c + 1) * (c + 1))
        * ll) by (nonlinear_arith)
        requires
            p == (a + 1) * (a + 1) + (b + 1) * (b + 1) + (c + 1) * (c + 1),
    ;
    assert(m * kk == (mx * mx) * kk + (my * my) * kk + (mz * mz) * kk) by (nonlinear_arith)
        requires
            m == mx * mx + my * my + mz * mz,
    ;
    assert(m * kk < p * ll);
    let kql = kq * l;
    let klo = k * lo;
    let qq = kq * kq;
    assert(0 <= kql) by (nonlinear_arith)
        requires
            kql == kq * l,
            2 <= kq,
            0 < l,
    ;
    lemma_square_ordered(kql, klo);
    assert(kql * kql == qq * ll) by (nonlinear_arith)
        requires
            kql == kq * l,
            qq == kq * kq,
            ll == l * l,
    ;
    assert(klo * klo == kk * (lo * lo)) by (nonlinear_arith)
        requires
            klo == k * lo,
            kk == k * k,
    ;
    assert(kk * (lo * lo) <= m * kk) by (nonlinear_arith)
        requires
            lo * lo <= m,
            kk == k * k,
    ;
    assert(qq < p) by (nonlinear_arith)
        requires
            qq * ll < p * ll,
            ll == l * l,
            0 < l,
    ;
    let t = a + b + c;
    assert(p == q + 2 * t + 3) by (nonlinear_arith)
        requires
            p == (a + 1) * (a + 1) + (b + 1) * (b + 1) + (c + 1) * (c + 1),
            q == a * a + b * b + c * c,
            t == a + b + c,
    ;
    assert(t * t <= 3 * q) by (nonlinear_arith)
        requires
            q == a * a + b * b + c * c,
            t == a + b + c,
    ;
    let g = kq - 2;
    if q < g * g {
        assert(t * t < (2 * g) * (2 * g)) by (nonlinear_arith)
            requires
                t * t <= 3 * q,
                q < g * g,
        ;
        if t >= 2 * g {
            lemma_square_ordered(2 * g, t);
        }
        assert(qq == g * g + 4 * g + 4) by (nonlinear_arith)
            requires
                qq == kq * kq,
                g == kq - 2,
        ;
        assert(false);
    }
}

/// The length of a vector is at least its largest component.
pub proof fn lemma_reach_within_length(v: V3)
    ensures
        v3_reach(v) <= isqrt(v.x * v.x + v.y * v.y + v.z * v.z),
        0 <= v3_reach(v),
{
    let m = v3_reach(v);
    let s = v.x * v.x + v.y * v.y + v.z * v.z;
    assert(0 <= v.x * v.x && 0 <= v.y * v.y && 0 <= v.z * v.z) by (nonlinear_arith);
    assert(m * m == v.x * v.x || m * m == v.y * v.y || m * m == v.z * v.z) by (nonlinear_arith)
        requires
            m == magnitude(v.x) || m == magnitude(v.y) || m == magnitude(v.z),
    ;
    lemma_isqrt_exists(s);
    if isqrt(s) < m {
        lemma_square_ordered(isqrt(s) + 1, m);
    }
}

/// What bringing a vector to ordinary size brings about, for the model of a
/// vector: nothing saturates, a vector that is not zero gets a length of at
/// least one half, and a vector that was brought up gets a length below four.
/// The zero vector stays, and it alone has the length zero.
pub proof fn lemma_grown(v: V3)
    requires
        v3_valid(v),
    ensures
        v3_grown(v).x == v.x * growth(v3_reach(v)),
        v3_grown(v).y == v.y * growth(v3_reach(v)),
        v3_grown(v).z == v.z * growth(v3_reach(v)),
        v3_length(v) == 0 <==> v == v3_zero(),
        v != v3_zero() ==> ORDINARY_RAW <= v3_length(v3_grown(v)),
        v3_reach(v) < ORDINARY_RAW ==> v3_length(v3_grown(v)) < 4 * ORDINARY_RAW,
        v3_reach(v) >= ORDINARY_RAW ==> v3_grown(v) == v,
        v3_reach(v3_grown(v)) == v3_reach(v) * growth(v3_reach(v)),
{
    let m = v3_reach(v);
    let f = growth(m);
    lemma_growth(m);
    lemma_reach_within_length(v);
    let g = V3 { x: v.x * f, y: v.y * f, z: v.z * f };
    lemma_times_size(v.x, m, f);
    lemma_times_size(v.y, m, f);
    lemma_times_size(v.z, m, f);
    assert(m * 1 == m);
    assert(v3_grown(v) == g);
    assert(v3_reach(g) == m * f);
    lemma_reach_within_length(g);
    if v == v3_zero() {
        assert(0 * 0 == 0int);
        assert(is_isqrt(0, 0));
        lemma_isqrt_is(0, 0);
    }
    if m < ORDINARY_RAW {
        let bound = 2 * ORDINARY_RAW;
        lemma_square_ordered(magnitude(g.x), bound);
        lemma_square_ordered(magnitude(g.y), bound);
        lemma_square_ordered(magnitude(g.z), bound);
        assert(magnitude(g.x) * magnitude(g.x) == g.x * g.x && magnitude(g.y) * magnitude(g.y)
            == g.y * g.y && magnitude(g.z) * magnitude(g.z) == g.z * g.z) by (nonlinear_arith);
        let s = g.x * g.x + g.y * g.y + g.z * g.z;
        assert(0 <= s);
        assert(bound * bound == 0x1_0000_0000_0000_0000 && (2 * bound) * (2 * bound)
            == 0x4_0000_0000_0000_0000) by (nonlinear_arith)
            requires
                bound == 0x1_0000_0000,
        ;
        assert(s < (2 * bound) * (2 * bound));
        lemma_isqrt_exists(s);
        if isqrt(s) >= 2 * bound {
            lemma_square_ordered(2 * bound, isqrt(s));
        }
    }
}

/// The size of a component after it was multiplied by the growth.
proof fn lemma_times_size(x: int, m: int, f: int)
    requires
        magnitude(x) <= m,
        1 <= f,
    ensures
        magnitude(x * f) == magnitude(x) * f,
        magnitude(x * f) <= m * f,
        x * 1 == x,
{
    assert(magnitude(x * f) == magnitude(x) * f && magnitude(x) * f <= m * f)
        by (nonlinear_arith)
        requires
            magnitude(x) <= m,
            1 <= f,
    ;
}

/// A point inside the unit sphere has a length below one.
pub proof fn lemma_in_unit_sphere_length(p: V3)
    requires
        in_unit_sphere(p),
    ensures
        v3_length(p) < scale(),
{
    let s = p.x * p.x + p.y * p.y + p.z * p.z;
    assert(0 <= p.x * p.x && 0 <= p.y * p.y && 0 <= p.z * p.z) by (nonlinear_arith);
    let k = scale();
    vstd::arithmetic::div_mod::lemma_fundamental_div_mod(s, k);
    vstd::arithmetic::div_mod::lemma_mod_pos_bound(s, k);
    let q = s / k;
    assert(q < k);
    assert(k * q <= k * (k - 1)) by (nonlinear_arith)
        requires
            q <= k - 1,
            0 < k,
    ;
    assert(k * (k - 1) + k == k * k) by (nonlinear_arith);
    assert(s < k * k);
    lemma_isqrt_exists(s);
    if isqrt(s) >= k {
        lemma_square_ordered(k, isqrt(s));
    }
}

/// The length of the vector of length one along `v` is one, within two units
/// below and 10^-5 above, for every vector that is not zero and whose own
/// length is below the largest number.
pub proof fn lemma_unit_vector_length(v: V3)
    requires
        v3_length(v) != 0,
        v3_length(v) < limit(),
    ensures
        scale() - 2 <= v3_length(v3_unit(v)) <= scale() + UNIT_TOLERANCE_RAW,
{
    lemma_reach_within_length(v);
    assert(0 <= v.x * v.x && 0 <= v.y * v.y && 0 <= v.z * v.z) by (nonlinear_arith);
    lemma_isqrt_exists(v.x * v.x + v.y * v.y + v.z * v.z);
    assert(v3_valid(v));
    lemma_grown(v);
    lemma_over_length(v3_grown(v));
}

/// Dividing a vector by its length as it stands gives a length of one, within
/// two units below and 10^-5 above, for every vector whose own length is at
/// least 100000 units and below the largest number.
pub proof fn lemma_over_length(v: V3)
    requires
        UNIT_MIN_LENGTH_RAW <= v3_length(v) < limit(),
    ensures
        scale() - 2 <= v3_length(v3_over_length(v)) <= scale() + UNIT_TOLERANCE_RAW,
{
    let k = scale();
    let s = v.x * v.x + v.y * v.y + v.z * v.z;
    assert(0 <= v.x * v.x && 0 <= v.y * v.y && 0 <= v.z * v.z) by (nonlinear_arith);
    lemma_isqrt_exists(s);
    let l = isqrt(s);
    assert(l == v3_length(v));
    lemma_component_bound(v.x, v.y * v.y + v.z * v.z, l);
    lemma_component_bound(v.y, v.x * v.x + v.z * v.z, l);
    lemma_component_bound(v.z, v.x * v.x + v.y * v.y, l);
    let mx = magnitude(v.x);
    let my = magnitude(v.y);
    let mz = magnitude(v.z);
    assert(mx * mx == v.x * v.x && my * my == v.y * v.y && mz * mz == v.z * v.z)
        by (nonlinear_arith)
        requires
            mx == magnitude(v.x),
            my == magnitude(v.y),
            mz == magnitude(v.z),
    ;
    let a = lemma_quotient_bracket(mx, k, l);
    let b = lemma_quotient_bracket(my, k, l);
    let c = lemma_quotient_bracket(mz, k, l);
    lemma_quotients_above(a, b, c, mx, my, mz, k, l, 1, 42950);
    lemma_quotients_below(a, b, c, mx, my, mz, k, l, k, l);
    lemma_quotient_within(a, mx, k, l);
    lemma_quotient_within(b, my, k, l);
    lemma_quotient_within(c, mz, k, l);
    let u = v3_over_length(v);
    lemma_quotient_is_component(v.x, l, a);
    lemma_quotient_is_component(v.y, l, b);
    lemma_quotient_is_component(v.z, l, c);
    let q = u.x * u.x + u.y * u.y + u.z * u.z;
    assert(q == a * a + b * b + c * c);
    assert(0 <= k - 2 && 0 <= k + 42950);
    lemma_isqrt_between(q, k - 2, k + 42950);
}

/// A product is at most as large as the product of bounds on its factors.
pub proof fn lemma_product_size_of(x: int, y: int, bx: int, by: int)
    requires
        magnitude(x) <= bx,
        magnitude(y) <= by,
    ensures
        magnitude(x * y) <= bx * by,
{
    assert(magnitude(x * y) <= bx * by) by (nonlinear_arith)
        requires
            -bx <= x <= bx,
            -by <= y <= by,
    ;
}

/// A quotient of a magnitude of at most `l` by `l` is at most the scale.
pub proof fn lemma_quotient_within(a: int, m: int, k: int, l: int)
    requires
        0 <= m <= l,
        0 < l,
        0 < k,
        a * l <= m * k,
    ensures
        a <= k,
{
    if a > k {
        assert(a * l > m * k) by (nonlinear_arith)
            requires
                a >= k + 1,
                0 <= m <= l,
                0 < l,
                0 < k,
        ;
    }
}

/// The quotient of `x` by `d` has the magnitude `(|x| scale) / |d|`, so its
/// square is the square of that, where that is a raw value.
pub proof fn lemma_quotient_is_component(x: int, d: int, a: int)
    requires
        d != 0,
        a == (magnitude(x) * scale()) / magnitude(d),
        a <= limit(),
    ensures
        fx_div(x, d) * fx_div(x, d) == a * a,
        magnitude(fx_div(x, d)) == a,
{
    let m = magnitude(x);
    assert(magnitude(x * scale()) == m * scale() && (x * scale() < 0 <==> x < 0))
        by (nonlinear_arith)
        requires
            m == magnitude(x),
            scale() == 0x1_0000_0000,
    ;
    assert(0 <= m * scale()) by (nonlinear_arith)
        requires
            0 <= m,
            scale() == 0x1_0000_0000,
    ;
    vstd::arithmetic::div_mod::lemma_div_pos_is_pos(m * scale(), magnitude(d));
    let t = tdiv(x * scale(), d);
    assert(t == a || t == -a);
    assert(fx_div(x, d) == t);
    assert(t * t == a * a) by (nonlinear_arith)
        requires
            t == a || t == -a,
    ;
}

} // verus!
